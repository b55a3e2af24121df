//! What the compute kernel of a multiplication is told.

use vstd::prelude::*;
use crate::dispatch::MathFidelity;
use crate::dram::DType;
use crate::kernels::matmul::plan::Plan;
use crate::kernels::matmul::program;
use crate::kernels::matmul::program::MatmulEpilogueKind;
use crate::kernels::matmul::request;
use crate::text;
use crate::text::read;

verus! {

spec fn told(p: Plan) -> Seq<(Seq<char>, int)> {
    seq![
        ("@BATCH_COUNT@"@, p.batches_per_group),
        ("@IN0_BLOCK_W@"@, p.in0_block_w),
        ("@IN0_NUM_SUBBLOCKS@"@, p.per_core_m / p.out_subblock_h),
        ("@IN0_BLOCK_NUM_TILES@"@, p.per_core_m * p.in0_block_w),
        ("@IN0_SUBBLOCK_NUM_TILES@"@, p.out_subblock_h * p.in0_block_w),
        ("@IN1_NUM_SUBBLOCKS@"@, p.per_core_n / p.out_subblock_w),
        ("@IN1_BLOCK_NUM_TILES@"@, p.per_core_n * p.in0_block_w),
        ("@IN1_PER_CORE_W@"@, p.per_core_n),
        ("@NUM_BLOCKS@"@, p.kt / p.in0_block_w),
        ("@OUT_SUBBLOCK_H@"@, p.out_subblock_h),
        ("@OUT_SUBBLOCK_W@"@, p.out_subblock_w),
        ("@OUT_SUBBLOCK_NUM_TILES@"@, p.out_subblock_h * p.out_subblock_w),
        ("@OUT_BLOCK_NUM_TILES@"@, p.per_core_m * p.per_core_n),
    ]
}

proof fn lemma_name_0()
    ensures
        read::is_placeholder("@BATCH_COUNT@"@),
        "@BATCH_COUNT@"@.len() == 13,
{
    reveal_strlit("@BATCH_COUNT@");
}

proof fn lemma_name_1()
    ensures
        read::is_placeholder("@IN0_BLOCK_W@"@),
        "@IN0_BLOCK_W@"@.len() == 13,
{
    reveal_strlit("@IN0_BLOCK_W@");
}

proof fn lemma_name_2()
    ensures
        read::is_placeholder("@IN0_NUM_SUBBLOCKS@"@),
        "@IN0_NUM_SUBBLOCKS@"@.len() == 19,
{
    reveal_strlit("@IN0_NUM_SUBBLOCKS@");
}

proof fn lemma_name_3()
    ensures
        read::is_placeholder("@IN0_BLOCK_NUM_TILES@"@),
        "@IN0_BLOCK_NUM_TILES@"@.len() == 21,
{
    reveal_strlit("@IN0_BLOCK_NUM_TILES@");
}

proof fn lemma_name_4()
    ensures
        read::is_placeholder("@IN0_SUBBLOCK_NUM_TILES@"@),
        "@IN0_SUBBLOCK_NUM_TILES@"@.len() == 24,
{
    reveal_strlit("@IN0_SUBBLOCK_NUM_TILES@");
}

proof fn lemma_name_5()
    ensures
        read::is_placeholder("@IN1_NUM_SUBBLOCKS@"@),
        "@IN1_NUM_SUBBLOCKS@"@.len() == 19,
{
    reveal_strlit("@IN1_NUM_SUBBLOCKS@");
}

proof fn lemma_name_6()
    ensures
        read::is_placeholder("@IN1_BLOCK_NUM_TILES@"@),
        "@IN1_BLOCK_NUM_TILES@"@.len() == 21,
{
    reveal_strlit("@IN1_BLOCK_NUM_TILES@");
}

proof fn lemma_name_7()
    ensures
        read::is_placeholder("@IN1_PER_CORE_W@"@),
        "@IN1_PER_CORE_W@"@.len() == 16,
{
    reveal_strlit("@IN1_PER_CORE_W@");
}

proof fn lemma_name_8()
    ensures
        read::is_placeholder("@NUM_BLOCKS@"@),
        "@NUM_BLOCKS@"@.len() == 12,
{
    reveal_strlit("@NUM_BLOCKS@");
}

proof fn lemma_name_9()
    ensures
        read::is_placeholder("@OUT_SUBBLOCK_H@"@),
        "@OUT_SUBBLOCK_H@"@.len() == 16,
{
    reveal_strlit("@OUT_SUBBLOCK_H@");
}

proof fn lemma_name_10()
    ensures
        read::is_placeholder("@OUT_SUBBLOCK_W@"@),
        "@OUT_SUBBLOCK_W@"@.len() == 16,
{
    reveal_strlit("@OUT_SUBBLOCK_W@");
}

proof fn lemma_name_11()
    ensures
        read::is_placeholder("@OUT_SUBBLOCK_NUM_TILES@"@),
        "@OUT_SUBBLOCK_NUM_TILES@"@.len() == 24,
{
    reveal_strlit("@OUT_SUBBLOCK_NUM_TILES@");
}

proof fn lemma_name_12()
    ensures
        read::is_placeholder("@OUT_BLOCK_NUM_TILES@"@),
        "@OUT_BLOCK_NUM_TILES@"@.len() == 21,
{
    reveal_strlit("@OUT_BLOCK_NUM_TILES@");
}

proof fn lemma_names(p: Plan)
    ensures
        read::are_placeholders(told(p)),
{
    lemma_name_0();
    lemma_name_1();
    lemma_name_2();
    lemma_name_3();
    lemma_name_4();
    lemma_name_5();
    lemma_name_6();
    lemma_name_7();
    lemma_name_8();
    lemma_name_9();
    lemma_name_10();
    lemma_name_11();
    lemma_name_12();
    assert("@BATCH_COUNT@"@ != "@IN0_BLOCK_W@"@) by {
        reveal_strlit("@BATCH_COUNT@");
        reveal_strlit("@IN0_BLOCK_W@");
        assert("@BATCH_COUNT@"@[1] != "@IN0_BLOCK_W@"@[1]);
    }
    assert("@IN0_NUM_SUBBLOCKS@"@ != "@IN1_NUM_SUBBLOCKS@"@) by {
        reveal_strlit("@IN0_NUM_SUBBLOCKS@");
        reveal_strlit("@IN1_NUM_SUBBLOCKS@");
        assert("@IN0_NUM_SUBBLOCKS@"@[3] != "@IN1_NUM_SUBBLOCKS@"@[3]);
    }
    assert("@IN0_BLOCK_NUM_TILES@"@ != "@IN1_BLOCK_NUM_TILES@"@) by {
        reveal_strlit("@IN0_BLOCK_NUM_TILES@");
        reveal_strlit("@IN1_BLOCK_NUM_TILES@");
        assert("@IN0_BLOCK_NUM_TILES@"@[3] != "@IN1_BLOCK_NUM_TILES@"@[3]);
    }
    assert("@IN0_BLOCK_NUM_TILES@"@ != "@OUT_BLOCK_NUM_TILES@"@) by {
        reveal_strlit("@IN0_BLOCK_NUM_TILES@");
        reveal_strlit("@OUT_BLOCK_NUM_TILES@");
        assert("@IN0_BLOCK_NUM_TILES@"@[1] != "@OUT_BLOCK_NUM_TILES@"@[1]);
    }
    assert("@IN0_SUBBLOCK_NUM_TILES@"@ != "@OUT_SUBBLOCK_NUM_TILES@"@) by {
        reveal_strlit("@IN0_SUBBLOCK_NUM_TILES@");
        reveal_strlit("@OUT_SUBBLOCK_NUM_TILES@");
        assert("@IN0_SUBBLOCK_NUM_TILES@"@[1] != "@OUT_SUBBLOCK_NUM_TILES@"@[1]);
    }
    assert("@IN1_BLOCK_NUM_TILES@"@ != "@OUT_BLOCK_NUM_TILES@"@) by {
        reveal_strlit("@IN1_BLOCK_NUM_TILES@");
        reveal_strlit("@OUT_BLOCK_NUM_TILES@");
        assert("@IN1_BLOCK_NUM_TILES@"@[1] != "@OUT_BLOCK_NUM_TILES@"@[1]);
    }
    assert("@IN1_PER_CORE_W@"@ != "@OUT_SUBBLOCK_H@"@) by {
        reveal_strlit("@IN1_PER_CORE_W@");
        reveal_strlit("@OUT_SUBBLOCK_H@");
        assert("@IN1_PER_CORE_W@"@[1] != "@OUT_SUBBLOCK_H@"@[1]);
    }
    assert("@IN1_PER_CORE_W@"@ != "@OUT_SUBBLOCK_W@"@) by {
        reveal_strlit("@IN1_PER_CORE_W@");
        reveal_strlit("@OUT_SUBBLOCK_W@");
        assert("@IN1_PER_CORE_W@"@[1] != "@OUT_SUBBLOCK_W@"@[1]);
    }
    assert("@OUT_SUBBLOCK_H@"@ != "@OUT_SUBBLOCK_W@"@) by {
        reveal_strlit("@OUT_SUBBLOCK_H@");
        reveal_strlit("@OUT_SUBBLOCK_W@");
        assert("@OUT_SUBBLOCK_H@"@[14] != "@OUT_SUBBLOCK_W@"@[14]);
    }
    let list = told(p);
    assert forall|i: int| 0 <= i < list.len() implies read::is_placeholder(
        (#[trigger] list[i]).0,
    ) by {
    }
    assert forall|i: int, j: int| 0 <= i < j < list.len() implies (#[trigger] list[i]).0 != (
    #[trigger] list[j]).0 by {
    }
}

proof fn lemma_text(template: Seq<char>, p: Plan)
    ensures
        program::compute_text(template, p) == read::filled(template, told(p)),
{
    let l = told(p);
    let t0 = template;
    assert(read::filled(t0, l.take(0)) == t0);
    let t1 = text::replaced(t0, l[0].0, text::dec(l[0].1));
    assert(l.take(1).drop_last() =~= l.take(0));
    assert(l.take(1).last() == l[0]);
    assert(read::filled(template, l.take(1)) == t1);
    let t2 = text::replaced(t1, l[1].0, text::dec(l[1].1));
    assert(l.take(2).drop_last() =~= l.take(1));
    assert(l.take(2).last() == l[1]);
    assert(read::filled(template, l.take(2)) == t2);
    let t3 = text::replaced(t2, l[2].0, text::dec(l[2].1));
    assert(l.take(3).drop_last() =~= l.take(2));
    assert(l.take(3).last() == l[2]);
    assert(read::filled(template, l.take(3)) == t3);
    let t4 = text::replaced(t3, l[3].0, text::dec(l[3].1));
    assert(l.take(4).drop_last() =~= l.take(3));
    assert(l.take(4).last() == l[3]);
    assert(read::filled(template, l.take(4)) == t4);
    let t5 = text::replaced(t4, l[4].0, text::dec(l[4].1));
    assert(l.take(5).drop_last() =~= l.take(4));
    assert(l.take(5).last() == l[4]);
    assert(read::filled(template, l.take(5)) == t5);
    let t6 = text::replaced(t5, l[5].0, text::dec(l[5].1));
    assert(l.take(6).drop_last() =~= l.take(5));
    assert(l.take(6).last() == l[5]);
    assert(read::filled(template, l.take(6)) == t6);
    let t7 = text::replaced(t6, l[6].0, text::dec(l[6].1));
    assert(l.take(7).drop_last() =~= l.take(6));
    assert(l.take(7).last() == l[6]);
    assert(read::filled(template, l.take(7)) == t7);
    let t8 = text::replaced(t7, l[7].0, text::dec(l[7].1));
    assert(l.take(8).drop_last() =~= l.take(7));
    assert(l.take(8).last() == l[7]);
    assert(read::filled(template, l.take(8)) == t8);
    let t9 = text::replaced(t8, l[8].0, text::dec(l[8].1));
    assert(l.take(9).drop_last() =~= l.take(8));
    assert(l.take(9).last() == l[8]);
    assert(read::filled(template, l.take(9)) == t9);
    let t10 = text::replaced(t9, l[9].0, text::dec(l[9].1));
    assert(l.take(10).drop_last() =~= l.take(9));
    assert(l.take(10).last() == l[9]);
    assert(read::filled(template, l.take(10)) == t10);
    let t11 = text::replaced(t10, l[10].0, text::dec(l[10].1));
    assert(l.take(11).drop_last() =~= l.take(10));
    assert(l.take(11).last() == l[10]);
    assert(read::filled(template, l.take(11)) == t11);
    let t12 = text::replaced(t11, l[11].0, text::dec(l[11].1));
    assert(l.take(12).drop_last() =~= l.take(11));
    assert(l.take(12).last() == l[11]);
    assert(read::filled(template, l.take(12)) == t12);
    let t13 = text::replaced(t12, l[12].0, text::dec(l[12].1));
    assert(l.take(13).drop_last() =~= l.take(12));
    assert(l.take(13).last() == l[12]);
    assert(read::filled(template, l.take(13)) == t13);
    assert(l.take(13) =~= l);
}

/// The number that the compute kernel is told where its template says `name`.
pub open spec fn says(p: Plan, name: Seq<char>, n: int) -> bool {
    program::compute_text(name, p) == text::dec(n)
}

/// The compute kernel is told numbers that belong together: its blocks cover the inner
/// dimension, its subblocks cover the rows and columns that are its share, and every count of
/// tiles is that of the rectangle it stands for.
pub proof fn lemma_compute_told(p: Plan)
    requires
        program::sound(p),
        p.kt % p.in0_block_w == 0,
        p.batches_per_group >= 0,
    ensures
        exists|blocks: int, width: int|
            {
                &&& #[trigger] says(p, "@NUM_BLOCKS@"@, blocks)
                &&& #[trigger] says(p, "@IN0_BLOCK_W@"@, width)
                &&& blocks * width == p.kt
                &&& says(p, "@IN0_BLOCK_NUM_TILES@"@, p.per_core_m * width)
                &&& says(p, "@IN1_BLOCK_NUM_TILES@"@, width * p.per_core_n)
            },
        exists|rows: int, h: int|
            {
                &&& #[trigger] says(p, "@IN0_NUM_SUBBLOCKS@"@, rows)
                &&& #[trigger] says(p, "@OUT_SUBBLOCK_H@"@, h)
                &&& rows * h == p.per_core_m
                &&& says(p, "@IN0_SUBBLOCK_NUM_TILES@"@, h * p.in0_block_w)
                &&& says(p, "@OUT_SUBBLOCK_NUM_TILES@"@, h * p.out_subblock_w)
            },
        exists|cols: int, w: int|
            {
                &&& #[trigger] says(p, "@IN1_NUM_SUBBLOCKS@"@, cols)
                &&& #[trigger] says(p, "@OUT_SUBBLOCK_W@"@, w)
                &&& cols * w == p.per_core_n
            },
        says(p, "@IN1_PER_CORE_W@"@, p.per_core_n),
        says(p, "@OUT_BLOCK_NUM_TILES@"@, p.per_core_m * p.per_core_n),
        says(p, "@BATCH_COUNT@"@, p.batches_per_group),
{
    let l = told(p);
    lemma_names(p);
    let (m, n, h, w, bw) = (
        p.per_core_m,
        p.per_core_n,
        p.out_subblock_h,
        p.out_subblock_w,
        p.in0_block_w,
    );
    assert(m * bw >= 0 && h * bw >= 0 && n * bw >= 0 && h * w >= 0 && m * n >= 0 && n * bw == bw
        * n) by (nonlinear_arith)
        requires
            m >= 0,
            n >= 0,
            h >= 0,
            w >= 0,
            bw >= 0,
    ;
    let (rows, cols, blocks) = (m / h, n / w, p.kt / bw);
    assert(rows * h == m && rows >= 0) by (nonlinear_arith)
        requires
            rows == m / h,
            m % h == 0,
            h > 0,
            m >= 0,
    ;
    assert(cols * w == n && cols >= 0) by (nonlinear_arith)
        requires
            cols == n / w,
            n % w == 0,
            w > 0,
            n >= 0,
    ;
    assert(blocks * bw == p.kt && blocks >= 0) by (nonlinear_arith)
        requires
            blocks == p.kt / bw,
            p.kt % bw == 0,
            bw > 0,
            p.kt >= 0,
    ;
    assert forall|k: int| 0 <= k < l.len() implies says(p, (#[trigger] l[k]).0, l[k].1) by {
        lemma_text(l[k].0, p);
        read::lemma_filled(l, k);
    }
    assert(says(p, l[0].0, l[0].1));
    assert(says(p, l[1].0, l[1].1));
    assert(says(p, l[2].0, l[2].1));
    assert(says(p, l[3].0, l[3].1));
    assert(says(p, l[4].0, l[4].1));
    assert(says(p, l[5].0, l[5].1));
    assert(says(p, l[6].0, l[6].1));
    assert(says(p, l[7].0, l[7].1));
    assert(says(p, l[8].0, l[8].1));
    assert(says(p, l[9].0, l[9].1));
    assert(says(p, l[10].0, l[10].1));
    assert(says(p, l[11].0, l[11].1));
    assert(says(p, l[12].0, l[12].1));
}

/// The buffers of a core hold what the compute kernel is told: twice a block of either operand,
/// so that one is read while the other is used, and its whole share of the output, in the type
/// of the output. A search for the greatest elements has a buffer for one tile of indices.
pub proof fn lemma_buffers_hold(p: Plan, dtype: DType, epilogue: MatmulEpilogueKind)
    requires
        program::sound(p),
    ensures
        ({
            let cbs = program::matmul_cbs(p, dtype, epilogue);
            let has = |index: int, d: DType, tiles: int|
                exists|i: int|
                    0 <= i < cbs.len() && (#[trigger] cbs[i]).index == index && cbs[i].dtype == d
                        && cbs[i].tiles == tiles;
            &&& has(0, DType::Float16B, 2 * (p.per_core_m * p.in0_block_w))
            &&& has(1, DType::Float16B, 2 * (p.in0_block_w * p.per_core_n))
            &&& has(16, dtype, p.per_core_m * p.per_core_n)
            &&& has(24, dtype, p.per_core_m * p.per_core_n)
            &&& epilogue == MatmulEpilogueKind::Top1 ==> has(17, DType::Int32, 1)
        }),
        forall|i: int, j: int|
            #![trigger program::matmul_cbs(p, dtype, epilogue)[i], program::matmul_cbs(
                p,
                dtype,
                epilogue,
            )[j]]
            0 <= i < j < program::matmul_cbs(p, dtype, epilogue).len() ==> program::matmul_cbs(
                p,
                dtype,
                epilogue,
            )[i].index != program::matmul_cbs(p, dtype, epilogue)[j].index,
{
    let (m, n, bw) = (p.per_core_m, p.per_core_n, p.in0_block_w);
    let cbs = program::matmul_cbs(p, dtype, epilogue);
    assert(m * bw >= 0 && n * bw >= 0 && m * n >= 0 && n * bw == bw * n && 2 * m * bw == 2 * (m
        * bw) && 2 * n * bw == 2 * (n * bw) && m * n * 2048 >= m * n && 2 * m * bw * 2048 == (m
        * bw) * 4096 && 2 * n * bw * 2048 == (n * bw) * 4096) by (nonlinear_arith)
        requires
            m >= 0,
            n >= 0,
            bw >= 0,
    ;
    assert(cbs[0].index == 0 && cbs[1].index == 1 && cbs[5].index == 16 && cbs[6].index == 24);
    if epilogue == MatmulEpilogueKind::Top1 {
        assert(cbs[7].index == 17);
    }
}

/// A setting that is the number of a precision asks for that precision, and no setting asks for
/// the finer one.
pub proof fn lemma_fidelity_number(f: MathFidelity)
    ensures
        request::fidelity_of(text::dec(f.code() as int)) == Some(f),
        request::fidelity_of(""@) matches Some(g) && g.code() >= f.code(),
{
    let s = text::dec(f.code() as int);
    reveal_strlit("");
    reveal_strlit("hifi2");
    reveal_strlit("hi2");
    reveal_strlit("2");
    reveal_strlit("lofi");
    reveal_strlit("lo");
    reveal_strlit("0");
    assert(s.len() == 1);
    assert(f.code() == 2 ==> s =~= "2"@);
    assert(f.code() == 0 ==> s =~= "0"@);
    assert(f.code() == 0 ==> s[0] != "2"@[0]);
}

} // verus!
