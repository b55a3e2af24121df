//! The commands that place a program on its cores and start it.

use vstd::prelude::*;
use crate::arith;
use crate::bytes;
use crate::compiler::CompiledKernel;
use crate::cores;
use crate::cq;
use crate::cq::queue;
use crate::dispatch;
use crate::dispatch::payload;
use crate::dispatch::{CBConfig, CoreSelection, DevMsgs, Program};
use crate::error;
use crate::error::Error;
use crate::hw::{CoreCoord, TensixL1};
use crate::kernels::kernel::RuntimeArgs;
use crate::kernels::lowering::{CompileConfig, Config, KernelCb};
use crate::text;

verus! {

/// One step of a dispatch.
#[derive(Clone, Debug)]
pub enum DispatchCommand {
    Write { cores: Vec<CoreCoord>, addr: usize, data: Vec<u8> },
    WritePacked { cores: Vec<CoreCoord>, addr: usize, data: Vec<Vec<u8>> },
    Launch { cores: Vec<CoreCoord> },
}

/// What a contract says of a step.
pub enum Step {
    Write { cores: Seq<CoreCoord>, addr: int, data: Seq<u8> },
    WritePacked { cores: Seq<CoreCoord>, addr: int, data: Seq<Seq<u8>> },
    Launch { cores: Seq<CoreCoord> },
}

impl View for DispatchCommand {
    type V = Step;

    open spec fn view(&self) -> Step {
        match self {
            DispatchCommand::Write { cores, addr, data } => Step::Write {
                cores: cores@,
                addr: *addr as int,
                data: data@,
            },
            DispatchCommand::WritePacked { cores, addr, data } => Step::WritePacked {
                cores: cores@,
                addr: *addr as int,
                data: data@.map_values(|b: Vec<u8>| b@),
            },
            DispatchCommand::Launch { cores } => Step::Launch { cores: cores@ },
        }
    }
}

/// The steps of a list of commands.
pub open spec fn steps(commands: Seq<DispatchCommand>) -> Seq<Step> {
    commands.map_values(|c: DispatchCommand| c@)
}

/// Cores that run the same kernels: the sending or the receiving variant of each.
#[derive(Clone, Debug)]
pub struct Role {
    pub cores: Vec<CoreCoord>,
    pub receives_reader: bool,
    pub receives_writer: bool,
}

impl View for Role {
    type V = (Seq<CoreCoord>, bool, bool);

    open spec fn view(&self) -> (Seq<CoreCoord>, bool, bool) {
        (self.cores@, self.receives_reader, self.receives_writer)
    }
}

/// The roles of a list.
pub open spec fn roles_view(roles: Seq<Role>) -> Seq<(Seq<CoreCoord>, bool, bool)> {
    roles.map_values(|r: Role| r@)
}

/// The cores of a grid, column by column.
pub open spec fn grid_cores(cols: Seq<u8>, rows: Seq<u8>) -> Seq<CoreCoord> {
    Seq::new(
        cols.len() * rows.len(),
        |k: int| CoreCoord { x: cols[k / rows.len() as int], y: rows[k % rows.len() as int] },
    )
}

/// Why core `k` of a grid cannot be used.
pub open spec fn availability_checks(
    available: Seq<CoreCoord>,
    grid: Seq<CoreCoord>,
) -> spec_fn(int) -> Option<error::Refusal> {
    |k: int|
        if available.contains(grid[k]) {
            None
        } else {
            Some(
                error::invalid(
                    "grid core "@ + grid[k].shown() + " is not available on this device"@,
                ),
            )
        }
}

/// Why the cores of a program cannot be chosen.
pub open spec fn roles_refusal(available: Seq<CoreCoord>, grid: Option<(Seq<u8>, Seq<u8>)>) -> Option<
    error::Refusal,
> {
    match grid {
        None => None,
        Some((rows, cols)) => if rows.len() == 0 || cols.len() == 0 {
            Some(error::invalid("program grid must contain at least one row and one column"@))
        } else {
            error::first_refusal(
                0,
                (cols.len() * rows.len()) as int,
                availability_checks(available, grid_cores(cols, rows)),
            )
        },
    }
}

/// Adds a role, unless it has no cores.
pub open spec fn with_role(
    roles: Seq<(Seq<CoreCoord>, bool, bool)>,
    role: (Seq<CoreCoord>, bool, bool),
) -> Seq<(Seq<CoreCoord>, bool, bool)> {
    if role.0.len() == 0 {
        roles
    } else {
        roles.push(role)
    }
}

/// The roles of a grid: the corner sends both operands, the first row receives
/// the reader's, the first column the writer's, all others both.
pub open spec fn grid_roles(cols: Seq<u8>, rows: Seq<u8>) -> Seq<(Seq<CoreCoord>, bool, bool)> {
    let corner = (grid_cores(cols.take(1), rows.take(1)), false, false);
    let top = (grid_cores(cols.skip(1), rows.take(1)), true, false);
    let left = (grid_cores(cols.take(1), rows.skip(1)), false, true);
    let inner = (grid_cores(cols.skip(1), rows.skip(1)), true, true);
    with_role(with_role(with_role(with_role(Seq::empty(), corner), top), left), inner)
}

/// The cores of a grid are those in its columns and rows.
pub proof fn lemma_grid_holds(cols: Seq<u8>, rows: Seq<u8>, c: CoreCoord)
    ensures
        grid_cores(cols, rows).contains(c) <==> cols.contains(c.x) && rows.contains(c.y),
{
    let grid = grid_cores(cols, rows);
    let (w, h) = (cols.len() as int, rows.len() as int);
    if grid.contains(c) {
        let k = choose|k: int| 0 <= k < grid.len() && grid[k] == c;
        assert(0 <= k < w * h);
        assert(h > 0) by (nonlinear_arith)
            requires
                0 <= k < w * h,
                w >= 0,
                h >= 0,
        ;
        assert(0 <= k / h < w && 0 <= k % h < h) by (nonlinear_arith)
            requires
                0 <= k < w * h,
                h > 0,
        ;
        assert(cols[k / h] == c.x);
        assert(rows[k % h] == c.y);
    }
    if cols.contains(c.x) && rows.contains(c.y) {
        let i = choose|i: int| 0 <= i < w && cols[i] == c.x;
        let j = choose|j: int| 0 <= j < h && rows[j] == c.y;
        crate::dram::layout::lemma_div_mod(i, h, j);
        crate::dram::layout::lemma_below(i, w, h, j);
        assert(grid[i * h + j] == c);
    }
}

proof fn lemma_first_or_rest(s: Seq<u8>, v: u8)
    requires
        s.len() > 0,
    ensures
        s.contains(v) <==> s.take(1).contains(v) || s.skip(1).contains(v),
        s.no_duplicates() ==> !(s.take(1).contains(v) && s.skip(1).contains(v)),
{
    let (a, b) = (s.take(1), s.skip(1));
    if s.contains(v) {
        let i = choose|i: int| 0 <= i < s.len() && s[i] == v;
        if i == 0 {
            assert(a[0] == v);
        } else {
            assert(b[i - 1] == v);
        }
    }
    if a.contains(v) {
        assert(a[0] == v);
        assert(s[0] == v);
    }
    if b.contains(v) {
        let i = choose|i: int| 0 <= i < b.len() && b[i] == v;
        assert(s[i + 1] == v);
    }
}

/// Every core of a grid has a role, and where no row or column is listed twice it
/// has only one.
pub proof fn lemma_roles_share_grid(cols: Seq<u8>, rows: Seq<u8>, c: CoreCoord)
    requires
        cols.len() > 0,
        rows.len() > 0,
    ensures
        grid_cores(cols, rows).contains(c) <==> exists|r: int|
            0 <= r < grid_roles(cols, rows).len() && (#[trigger] grid_roles(
                cols,
                rows,
            )[r]).0.contains(c),
        cols.no_duplicates() && rows.no_duplicates() ==> forall|a: int, b: int|
            0 <= a < b < grid_roles(cols, rows).len() && (#[trigger] grid_roles(
                cols,
                rows,
            )[a]).0.contains(c) ==> !(#[trigger] grid_roles(cols, rows)[b]).0.contains(c),
{
    let roles = grid_roles(cols, rows);
    let (cf, cr) = (cols.take(1), cols.skip(1));
    let (rf, rr) = (rows.take(1), rows.skip(1));
    let corner = grid_cores(cf, rf);
    let top = grid_cores(cr, rf);
    let left = grid_cores(cf, rr);
    let inner = grid_cores(cr, rr);
    lemma_grid_holds(cols, rows, c);
    lemma_grid_holds(cf, rf, c);
    lemma_grid_holds(cr, rf, c);
    lemma_grid_holds(cf, rr, c);
    lemma_grid_holds(cr, rr, c);
    lemma_first_or_rest(cols, c.x);
    lemma_first_or_rest(rows, c.y);
    let (w, h) = (cols.len() as int, rows.len() as int);
    assert(corner.len() == 1);
    assert(top.len() == w - 1) by (nonlinear_arith)
        requires
            top.len() == (w - 1) * 1,
    ;
    assert(left.len() == h - 1) by (nonlinear_arith)
        requires
            left.len() == 1 * (h - 1),
    ;
    assert(inner.len() == 0 <==> w == 1 || h == 1) by (nonlinear_arith)
        requires
            inner.len() == (w - 1) * (h - 1),
            w >= 1,
            h >= 1,
    ;
    let none: Seq<(Seq<CoreCoord>, bool, bool)> = Seq::empty();
    let one = none.push((corner, false, false));
    if w > 1 && h > 1 {
        assert(roles == one.push((top, true, false)).push((left, false, true)).push(
            (inner, true, true),
        ));
        assert(roles[0].0 == corner && roles[1].0 == top && roles[2].0 == left && roles[3].0
            == inner);
    } else if w > 1 {
        assert(roles == one.push((top, true, false)));
        assert(roles[0].0 == corner && roles[1].0 == top);
    } else if h > 1 {
        assert(roles == one.push((left, false, true)));
        assert(roles[0].0 == corner && roles[1].0 == left);
    } else {
        assert(roles == one);
        assert(roles[0].0 == corner);
    }
}

/// The cores that a program without a grid runs on.
pub open spec fn selected_cores(available: Seq<CoreCoord>, selection: CoreSelection) -> Seq<
    CoreCoord,
> {
    match selection {
        CoreSelection::Count(n) => if n <= available.len() {
            available.take(n as int)
        } else {
            available
        },
        CoreSelection::All => available,
    }
}

pub open spec fn grid_view(grid: Option<(Vec<u8>, Vec<u8>)>) -> Option<(Seq<u8>, Seq<u8>)> {
    match grid {
        Some((rows, cols)) => Some((rows@, cols@)),
        None => None,
    }
}

/// Whether `all` and `roles` are the cores and the roles of a program.
pub open spec fn chooses(
    available: Seq<CoreCoord>,
    program: &Program,
    all: Seq<CoreCoord>,
    roles: Seq<(Seq<CoreCoord>, bool, bool)>,
) -> bool {
    match grid_view(program.grid) {
        Some((rows, cols)) => {
            &&& cores::sorted(all)
            &&& all.to_multiset() == grid_cores(cols, rows).to_multiset()
            &&& roles == grid_roles(cols, rows)
        },
        None => {
            &&& all == selected_cores(available, program.cores)
            &&& roles == seq![(all, false, false)]
        },
    }
}

fn part_of_grid(
    cols: &[u8],
    col_from: usize,
    col_to: usize,
    rows: &[u8],
    row_from: usize,
    row_to: usize,
) -> (r: Vec<CoreCoord>)
    requires
        col_from <= col_to <= cols@.len(),
        row_from <= row_to <= rows@.len(),
    ensures
        r@ == grid_cores(
            cols@.subrange(col_from as int, col_to as int),
            rows@.subrange(row_from as int, row_to as int),
        ),
{
    let mut out: Vec<CoreCoord> = Vec::new();
    let ghost cs = cols@.subrange(col_from as int, col_to as int);
    let ghost rs = rows@.subrange(row_from as int, row_to as int);
    let ghost h = rs.len() as int;
    let ghost want = grid_cores(cs, rs);
    assert(0 * h == 0);
    for i in col_from..col_to
        invariant
            col_from <= i <= col_to <= cols@.len(),
            row_from <= row_to <= rows@.len(),
            cs == cols@.subrange(col_from as int, col_to as int),
            rs == rows@.subrange(row_from as int, row_to as int),
            h == rs.len(),
            want == grid_cores(cs, rs),
            out@.len() == (i - col_from) * h,
            forall|k: int| 0 <= k < out@.len() ==> out@[k] == want[k],
    {
        let x: u8 = cols[i];
        for j in row_from..row_to
            invariant
                col_from <= i < col_to <= cols@.len(),
                row_from <= j <= row_to <= rows@.len(),
                cs == cols@.subrange(col_from as int, col_to as int),
                rs == rows@.subrange(row_from as int, row_to as int),
                h == rs.len() == row_to - row_from,
                want == grid_cores(cs, rs),
                x == cols@[i as int],
                out@.len() == (i - col_from) * h + (j - row_from),
                forall|k: int| 0 <= k < out@.len() ==> out@[k] == want[k],
        {
            proof {
                crate::dram::layout::lemma_div_mod(i - col_from, h, j - row_from);
                crate::dram::layout::lemma_below(
                    i - col_from,
                    col_to - col_from,
                    h,
                    j - row_from,
                );
            }
            out.push(CoreCoord { x, y: rows[j] });
        }
        assert((i - col_from) * h + h == (i + 1 - col_from) * h) by (nonlinear_arith);
    }
    assert(out@ =~= want);
    out
}

fn push_role(roles: &mut Vec<Role>, cores: Vec<CoreCoord>, receives_reader: bool, receives_writer: bool)
    ensures
        roles_view(final(roles)@) == with_role(
            roles_view(old(roles)@),
            (cores@, receives_reader, receives_writer),
        ),
{
    if cores.len() > 0 {
        roles.push(Role { cores, receives_reader, receives_writer });
    }
    assert(roles_view(roles@) =~= with_role(
        roles_view(old(roles)@),
        (cores@, receives_reader, receives_writer),
    ));
}

/// Chooses the cores of a program and groups them by the kernels they run.
pub fn build_roles(available_cores: &[CoreCoord], program: &Program) -> (r: Result<
    (Vec<CoreCoord>, Vec<Role>),
    Error,
>)
    ensures
        match r {
            Ok((all, roles)) => {
                &&& roles_refusal(available_cores@, grid_view(program.grid)) is None
                &&& chooses(available_cores@, program, all@, roles_view(roles@))
            },
            Err(e) => roles_refusal(available_cores@, grid_view(program.grid)) == Some(e@),
        },
{
    match &program.grid {
        Some((rows, cols)) => {
            if rows.len() == 0 || cols.len() == 0 {
                return Err(
                    error::invalid_text(
                        "program grid must contain at least one row and one column",
                    ),
                );
            }
            let h: usize = rows.len();
            let w: usize = cols.len();
            let listed = part_of_grid(cols.as_slice(), 0, w, rows.as_slice(), 0, h);
            let ghost grid = grid_cores(cols@, rows@);
            assert(cols@.subrange(0, w as int) =~= cols@);
            assert(rows@.subrange(0, h as int) =~= rows@);
            assert(listed@ == grid);
            let n: usize = listed.len();
            for k in 0..n
                invariant
                    n == listed@.len(),
                    listed@ == grid,
                    grid == grid_cores(cols@, rows@),
                    rows@.len() > 0,
                    cols@.len() > 0,
                    grid_view(program.grid) == Some((rows@, cols@)),
                    forall|j: int|
                        0 <= j < k ==> #[trigger] availability_checks(available_cores@, grid)(j)
                            is None,
            {
                let core: CoreCoord = listed[k];
                if !cores::contains_core(available_cores, core) {
                    proof {
                        error::lemma_first_refusal_skip(
                            0,
                            k as int,
                            n as int,
                            availability_checks(available_cores@, grid),
                        );
                    }
                    return Err(
                        error::invalid_input(
                            text::cat3(
                                "grid core ",
                                core.to_string().as_str(),
                                " is not available on this device",
                            ),
                        ),
                    );
                }
            }
            proof {
                error::lemma_first_refusal_none(
                    0,
                    n as int,
                    availability_checks(available_cores@, grid),
                );
            }
            let all = cores::sort_cores(listed.as_slice());
            let corner = part_of_grid(cols.as_slice(), 0, 1, rows.as_slice(), 0, 1);
            let top = part_of_grid(cols.as_slice(), 1, w, rows.as_slice(), 0, 1);
            let left = part_of_grid(cols.as_slice(), 0, 1, rows.as_slice(), 1, h);
            let inner = part_of_grid(cols.as_slice(), 1, w, rows.as_slice(), 1, h);
            proof {
                assert(cols@.subrange(0, 1) =~= cols@.take(1));
                assert(rows@.subrange(0, 1) =~= rows@.take(1));
                assert(cols@.subrange(1, w as int) =~= cols@.skip(1));
                assert(rows@.subrange(1, h as int) =~= rows@.skip(1));
            }
            let mut roles: Vec<Role> = Vec::new();
            assert(roles_view(roles@) =~= Seq::empty());
            push_role(&mut roles, corner, false, false);
            push_role(&mut roles, top, true, false);
            push_role(&mut roles, left, false, true);
            push_role(&mut roles, inner, true, true);
            Ok((all, roles))
        },
        None => {
            let n: usize = match program.cores {
                CoreSelection::Count(count) => arith::min_usize(count, available_cores.len()),
                CoreSelection::All => available_cores.len(),
            };
            let all = cores::copy_cores(available_cores, n);
            proof {
                assert(available_cores@.take(available_cores@.len() as int) =~= available_cores@);
            }
            let role_cores = cores::copy_cores(available_cores, n);
            let mut roles: Vec<Role> = Vec::new();
            roles.push(Role { cores: role_cores, receives_reader: false, receives_writer: false });
            assert(roles_view(roles@) =~= seq![(all@, false, false)]);
            Ok((all, roles))
        },
    }
}

/// The compiled kernels of a program. The receiving variants are used on a grid only.
#[derive(Clone, Debug)]
pub struct ProgramKernels {
    pub writer: Option<CompiledKernel>,
    pub reader: Option<CompiledKernel>,
    pub compute: Option<(CompiledKernel, CompiledKernel, CompiledKernel)>,
    pub reader_recv: Option<CompiledKernel>,
    pub writer_recv: Option<CompiledKernel>,
}

/// Which kernels of a program have a source of their own.
#[derive(Clone, Copy, Debug, PartialEq, Eq, Structural)]
pub struct NeededKernels {
    pub writer: bool,
    pub reader: bool,
    pub compute: bool,
    pub reader_recv: bool,
    pub writer_recv: bool,
}

/// A kernel is compiled where its source is not empty; the receiving variants
/// only for a grid.
pub fn needed_kernels(program: &Program) -> (r: NeededKernels)
    ensures
        r.writer == (program.writer_kernel@.len() > 0),
        r.reader == (program.reader_kernel@.len() > 0),
        r.compute == (program.compute_kernel@.len() > 0),
        r.reader_recv == (program.grid is Some && program.reader_recv_kernel@.len() > 0),
        r.writer_recv == (program.grid is Some && program.writer_recv_kernel@.len() > 0),
{
    NeededKernels {
        writer: !program.writer_kernel.as_str().is_empty(),
        reader: !program.reader_kernel.as_str().is_empty(),
        compute: !program.compute_kernel.as_str().is_empty(),
        reader_recv: program.grid.is_some() && !program.reader_recv_kernel.as_str().is_empty(),
        writer_recv: program.grid.is_some() && !program.writer_recv_kernel.as_str().is_empty(),
    }
}

/// The settings with which the kernels of a program are compiled.
pub open spec fn program_config(program: &Program) -> Config {
    Config {
        cbs: program.cbs@.map_values(
            |cb: CBConfig| KernelCb::sized(cb.index, cb.dtype, cb.tiles),
        ),
        math_fidelity: program.math_fidelity,
        approx: program.approx,
        dst_accum_mode: program.dst_accum_mode,
        dst_full_sync: program.dst_full_sync,
    }
}

pub fn compile_config(program: &Program) -> (r: CompileConfig)
    ensures
        r@ == program_config(program),
{
    let mut cbs: Vec<KernelCb> = Vec::new();
    let ghost want = program_config(program).cbs;
    for i in 0..program.cbs.len()
        invariant
            want == program_config(program).cbs,
            cbs@ == want.take(i as int),
    {
        let cb = &program.cbs[i];
        cbs.push(KernelCb::new(cb.index, cb.dtype).with_tiles(cb.tiles));
        assert(cbs@ =~= want.take(i + 1));
    }
    assert(want.take(program.cbs@.len() as int) =~= want);
    CompileConfig {
        cbs,
        math_fidelity: program.math_fidelity,
        approx: program.approx,
        dst_accum_mode: program.dst_accum_mode,
        dst_full_sync: program.dst_full_sync,
    }
}

pub open spec fn kernel_image(k: Option<CompiledKernel>) -> Option<Seq<u8>> {
    match k {
        Some(k) => Some(k.xip@),
        None => None,
    }
}

/// The images that the cores of a role run. A variant without a source of its
/// own is the same as the sending one.
pub open spec fn role_images(
    program: &Program,
    kernels: &ProgramKernels,
    role: (Seq<CoreCoord>, bool, bool),
) -> Seq<(int, Seq<u8>)> {
    let reader = if role.1 && program.reader_recv_kernel@.len() > 0 {
        kernels.reader_recv
    } else {
        kernels.reader
    };
    let writer = if role.2 && program.writer_recv_kernel@.len() > 0 {
        kernels.writer_recv
    } else {
        kernels.writer
    };
    payload::image_list(
        kernel_image(writer),
        kernel_image(reader),
        match kernels.compute {
            Some(c) => Some((c.0.xip@, c.1.xip@, c.2.xip@)),
            None => None,
        },
    )
}

/// Offset of the semaphores: behind the arguments.
pub open spec fn program_sem_off(program: &Program) -> int {
    arith::round_up(
        4 * (program.writer_args@.len() + program.reader_args@.len() + program.compute_args@.len())
            as int,
        16,
    )
}

pub open spec fn program_rta_offsets(program: &Program) -> Seq<usize> {
    seq![
        0usize,
        (4 * program.writer_args@.len()) as usize,
        (4 * program.writer_args@.len() + 4 * program.reader_args@.len()) as usize,
    ]
}

/// Why the image of a role cannot be laid out.
pub open spec fn role_checks(
    program: &Program,
    kernels: &ProgramKernels,
    roles: Seq<(Seq<CoreCoord>, bool, bool)>,
) -> spec_fn(int) -> Option<error::Refusal> {
    |i: int|
        payload::payload_refusal(
            program.cbs@,
            program.semaphores as int,
            role_images(program, kernels, roles[i]),
            program_rta_offsets(program),
            program_sem_off(program),
        )
}

/// The steps of the first `n` roles: the launch message and the image of each.
pub open spec fn role_steps(
    program: &Program,
    kernels: &ProgramKernels,
    roles: Seq<(Seq<CoreCoord>, bool, bool)>,
    n: int,
) -> Seq<Step>
    decreases n,
{
    if n <= 0 {
        Seq::empty()
    } else {
        let role = roles[n - 1];
        let images = role_images(program, kernels, role);
        let sem_off = program_sem_off(program);
        let semaphores = program.semaphores as int;
        let shared = payload::payload_shared(program.cbs@, semaphores, images, sem_off);
        let launch = payload::payload_launch(
            program.cbs@,
            semaphores,
            images,
            program_rta_offsets(program),
            sem_off,
            0,
        );
        let before = role_steps(program, kernels, roles, n - 1).push(
            Step::Write { cores: role.0, addr: 0x70, data: launch },
        );
        if shared.len() == 0 {
            before
        } else {
            before.push(
                Step::Write {
                    cores: role.0,
                    addr: 0x86B0 + payload::local_cb_offset(sem_off, semaphores),
                    data: shared,
                },
            )
        }
    }
}

/// The steps before those of the roles: the mailbox is reset and the arguments are written.
pub open spec fn opening_steps(program: &Program, all: Seq<CoreCoord>) -> Seq<Step> {
    let rta = dispatch::packed_args(
        program.writer_args@,
        program.reader_args@,
        program.compute_args@,
        program.semaphores as int,
        program_sem_off(program),
    );
    let reset = seq![
        Step::Write { cores: all, addr: 0x370, data: seq![0u8, 0u8, 0u8, 0xE0u8] },
        Step::Write { cores: all, addr: 0x3A0, data: bytes::zeros(4) },
    ];
    if rta.len() == 0 {
        reset
    } else {
        reset.push(Step::Write { cores: all, addr: 0x86B0, data: rta })
    }
}

/// All steps of a program on the cores `all` with the given roles.
pub open spec fn plan_steps(
    program: &Program,
    kernels: &ProgramKernels,
    all: Seq<CoreCoord>,
    roles: Seq<(Seq<CoreCoord>, bool, bool)>,
) -> Seq<Step> {
    (opening_steps(program, all) + role_steps(program, kernels, roles, roles.len() as int)).push(
        Step::Launch { cores: all },
    )
}

fn push_command(commands: &mut Vec<DispatchCommand>, command: DispatchCommand)
    ensures
        steps(final(commands)@) == steps(old(commands)@).push(command@),
{
    commands.push(command);
    assert(steps(commands@) =~= steps(old(commands)@).push(command@));
}

fn write_to(all: &Vec<CoreCoord>, addr: usize, data: Vec<u8>) -> (c: DispatchCommand)
    ensures
        c@ == (Step::Write { cores: all@, addr: addr as int, data: data@ }),
{
    let cores = cores::copy_cores(all.as_slice(), all.len());
    assert(all@.take(all@.len() as int) =~= all@);
    DispatchCommand::Write { cores, addr, data }
}

/// Computes the bytes of the arguments of each kernel, and where the semaphores
/// stand behind them.
fn measure_args(program: &Program) -> (r: ((usize, usize, usize), usize))
    requires
        4 * (program.writer_args@.len() + program.reader_args@.len() + program.compute_args@.len())
            + 15 + program.semaphores * 16 <= usize::MAX,
    ensures
        (r.0).0 == 4 * program.writer_args@.len(),
        (r.0).1 == 4 * program.reader_args@.len(),
        (r.0).2 == 4 * program.compute_args@.len(),
        r.1 == program_sem_off(program),
        r.1 + program.semaphores * 16 <= usize::MAX,
{
    let sizes: (usize, usize, usize) = (
        4 * program.writer_args.len(),
        4 * program.reader_args.len(),
        4 * program.compute_args.len(),
    );
    let total: usize = sizes.0 + sizes.1 + sizes.2;
    proof {
        arith::lemma_round_up(total as int, 16);
    }
    (sizes, (total + 15) / 16 * 16)
}

fn reset_mailbox(all: &Vec<CoreCoord>) -> (commands: Vec<DispatchCommand>)
    ensures
        steps(commands@) == seq![
            Step::Write { cores: all@, addr: 0x370, data: seq![0u8, 0u8, 0u8, 0xE0u8] },
            Step::Write { cores: all@, addr: 0x3A0, data: bytes::zeros(4) },
        ],
{
    let mut commands: Vec<DispatchCommand> = Vec::new();
    assert(steps(commands@) =~= Seq::empty());
    let reset: Vec<u8> = vec![0u8, 0u8, 0u8, DevMsgs::RUN_MSG_RESET_READ_PTR_FROM_HOST];
    assert(reset@ =~= seq![0u8, 0u8, 0u8, 0xE0u8]);
    push_command(&mut commands, write_to(all, TensixL1::GO_MSG as usize, reset));
    let zero: Vec<u8> = vec![0u8; 4];
    assert(zero@ =~= bytes::zeros(4));
    push_command(&mut commands, write_to(all, TensixL1::GO_MSG_INDEX as usize, zero));
    commands
}

/// Lists the steps that come before those of the roles.
fn open_plan(program: &Program, all: &Vec<CoreCoord>, sem_off: usize) -> (commands: Vec<
    DispatchCommand,
>)
    requires
        sem_off == program_sem_off(program),
        sem_off + program.semaphores * 16 <= usize::MAX,
    ensures
        steps(commands@) == opening_steps(program, all@),
{
    let rta_blob = dispatch::pack_rta(
        program.writer_args.as_slice(),
        program.reader_args.as_slice(),
        program.compute_args.as_slice(),
        program.semaphores,
        sem_off,
    );
    let mut commands = reset_mailbox(all);
    if rta_blob.len() > 0 {
        push_command(
            &mut commands,
            write_to(all, TensixL1::KERNEL_CONFIG_BASE as usize, rta_blob),
        );
    }
    assert(steps(commands@) =~= opening_steps(program, all@));
    commands
}

/// The steps that run the program on the cores with new arguments: the mailbox is
/// reset, each core gets its packed arguments, and all are started.
pub open spec fn runtime_steps(all: Seq<CoreCoord>, blobs: Seq<Seq<u8>>) -> Seq<Step> {
    seq![
        Step::Write { cores: all, addr: 0x370, data: seq![0u8, 0u8, 0u8, 0xE0u8] },
        Step::Write { cores: all, addr: 0x3A0, data: bytes::zeros(4) },
        Step::WritePacked { cores: all, addr: 0x86B0, data: blobs },
        Step::Launch { cores: all },
    ]
}

/// Plans a run with new arguments of the program that stands on the cores.
pub fn runtime_commands(args: &RuntimeArgs) -> (commands: Vec<DispatchCommand>)
    ensures
        steps(commands@) == runtime_steps(args.core_list@, cq::blobs_view(args.blob_list@)),
{
    let all = &args.core_list;
    let mut commands = reset_mailbox(all);
    let cores = cores::copy_cores(all.as_slice(), all.len());
    let data = queue::copy_blobs(&args.blob_list);
    assert(all@.take(all@.len() as int) =~= all@);
    assert(data@.map_values(|b: Vec<u8>| b@) =~= cq::blobs_view(args.blob_list@));
    push_command(
        &mut commands,
        DispatchCommand::WritePacked { cores, addr: TensixL1::KERNEL_CONFIG_BASE as usize, data },
    );
    let cores = cores::copy_cores(all.as_slice(), all.len());
    push_command(&mut commands, DispatchCommand::Launch { cores });
    assert(steps(commands@) =~= runtime_steps(all@, cq::blobs_view(args.blob_list@)));
    commands
}

/// Plans the dispatch of a program whose kernels were compiled.
pub fn build_dispatch_plan(
    available_cores: &[CoreCoord],
    program: &Program,
    kernels: &ProgramKernels,
) -> (r: Result<Vec<DispatchCommand>, Error>)
    requires
        4 * (program.writer_args@.len() + program.reader_args@.len() + program.compute_args@.len())
            + 15 + program.semaphores * 16 <= usize::MAX,
    ensures
        match r {
            Ok(commands) => exists|all: Seq<CoreCoord>, roles: Seq<(Seq<CoreCoord>, bool, bool)>|
                {
                    &&& #[trigger] chooses(available_cores@, program, all, roles)
                    &&& roles_refusal(available_cores@, grid_view(program.grid)) is None
                    &&& all.len() > 0
                    &&& error::first_refusal(
                        0,
                        roles.len() as int,
                        role_checks(program, kernels, roles),
                    ) is None
                    &&& steps(commands@) == plan_steps(program, kernels, all, roles)
                },
            Err(e) => if roles_refusal(available_cores@, grid_view(program.grid)) is Some {
                roles_refusal(available_cores@, grid_view(program.grid)) == Some(e@)
            } else {
                exists|all: Seq<CoreCoord>, roles: Seq<(Seq<CoreCoord>, bool, bool)>|
                    {
                        &&& #[trigger] chooses(available_cores@, program, all, roles)
                        &&& if all.len() == 0 {
                            e@ == error::invalid("no worker cores selected for dispatch"@)
                        } else {
                            error::first_refusal(
                                0,
                                roles.len() as int,
                                role_checks(program, kernels, roles),
                            ) == Some(e@)
                        }
                    }
            },
        },
{
    let (all, roles) = build_roles(available_cores, program)?;
    let ghost rv = roles_view(roles@);
    if all.len() == 0 {
        return Err(error::invalid_text("no worker cores selected for dispatch"));
    }
    let (rta_sizes, sem_off) = measure_args(program);
    let mut commands = open_plan(program, &all, sem_off);
    let ghost opening = steps(commands@);
    let n: usize = roles.len();
    assert(rv.len() == n);
    for i in 0..n
        invariant
            n == roles@.len() == rv.len(),
            rv == roles_view(roles@),
            all@.len() > 0,
            chooses(available_cores@, program, all@, rv),
            roles_refusal(available_cores@, grid_view(program.grid)) is None,
            rta_sizes.0 == 4 * program.writer_args@.len(),
            rta_sizes.1 == 4 * program.reader_args@.len(),
            rta_sizes.0 + rta_sizes.1 <= usize::MAX,
            program.semaphores * 16 <= usize::MAX,
            sem_off == program_sem_off(program),
            steps(commands@) == opening + role_steps(program, kernels, rv, i as int),
            forall|j: int| 0 <= j < i ==> #[trigger] role_checks(program, kernels, rv)(j) is None,
    {
        proof {
            error::lemma_first_refusal_skip(
                0,
                i as int,
                n as int,
                role_checks(program, kernels, rv),
            );
        }
        let role: &Role = &roles[i];
        assert(rv[i as int] == role@);
        let reader: &Option<CompiledKernel> = if role.receives_reader
            && !program.reader_recv_kernel.as_str().is_empty() {
            &kernels.reader_recv
        } else {
            &kernels.reader
        };
        let writer: &Option<CompiledKernel> = if role.receives_writer
            && !program.writer_recv_kernel.as_str().is_empty() {
            &kernels.writer_recv
        } else {
            &kernels.writer
        };
        let (shared_addr, shared, launch) = payload::build_payload(
            program,
            reader.as_ref(),
            writer.as_ref(),
            kernels.compute.as_ref(),
            rta_sizes,
            sem_off,
            0,
        )?;
        assert(role_checks(program, kernels, rv)(i as int) is None);
        let ghost before = steps(commands@);
        push_command(&mut commands, write_to(&role.cores, TensixL1::LAUNCH as usize, launch));
        if shared.len() > 0 {
            push_command(&mut commands, write_to(&role.cores, shared_addr as usize, shared));
        }
        assert(steps(commands@) =~= opening + role_steps(program, kernels, rv, i + 1));
    }
    proof {
        error::lemma_first_refusal_none(0, n as int, role_checks(program, kernels, rv));
    }
    let launch_cores = cores::copy_cores(all.as_slice(), all.len());
    assert(all@.take(all@.len() as int) =~= all@);
    push_command(&mut commands, DispatchCommand::Launch { cores: launch_cores });
    assert(steps(commands@) == plan_steps(program, kernels, all@, rv));
    Ok(commands)
}

} // verus!
