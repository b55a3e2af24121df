//! How a matrix multiplication is spread over the cores.

use vstd::prelude::*;
use vstd::arithmetic::div_mod::*;
use vstd::arithmetic::mul::*;
use crate::arith;
use crate::cores;
use crate::error;
use crate::error::Error;
use crate::hw::CoreCoord;
use crate::kernels::matmul::search;
use crate::kernels::matmul::search::{Choice, Score, ScoreWords};
use crate::text;

verus! {

/// Bytes of a bf16 tile.
pub const TILE_BYTES: usize = 2048;

/// Bytes of a core's memory that buffers can use.
pub const L1_DATA_BYTES: usize = 0x149000;

/// Whether the blocks of a core fit into its memory.
pub open spec fn blocks_fit(per_core_m: int, per_core_n: int, block_w: int) -> bool {
    2 * per_core_m * block_w * 2048 + 2 * per_core_n * block_w * 2048 + per_core_m * per_core_n
        * 2048 + 2 * 2048 <= 0x149000
}

/// The divisors of `n` in ascending order.
pub open spec fn are_divisors(divs: Seq<usize>, n: int) -> bool {
    &&& forall|i: int, j: int| 0 <= i < j < divs.len() ==> #[trigger] divs[i] < #[trigger] divs[j]
    &&& forall|i: int| 0 <= i < divs.len() ==> 1 <= #[trigger] divs[i] <= n && n % (divs[i] as int) == 0
    &&& forall|d: usize| 1 <= d <= n && n % (d as int) == 0 ==> #[trigger] divs.contains(d)
}

/// Lists the divisors of a number.
pub fn divisors(n: usize) -> (divs: Vec<usize>)
    ensures
        are_divisors(divs@, n as int),
{
    let mut divs: Vec<usize> = Vec::new();
    let mut d: usize = 0;
    while d < n
        invariant
            d <= n,
            forall|i: int, j: int|
                0 <= i < j < divs@.len() ==> #[trigger] divs@[i] < #[trigger] divs@[j],
            forall|i: int|
                0 <= i < divs@.len() ==> 1 <= #[trigger] divs@[i] <= d && n as int % (
                divs@[i] as int) == 0,
            forall|e: usize|
                1 <= e <= d && n as int % (e as int) == 0 ==> #[trigger] divs@.contains(e),
        decreases n - d,
    {
        d = d + 1;
        let ghost before = divs@;
        if n % d == 0 {
            divs.push(d);
            assert forall|e: usize| 1 <= e <= d && n as int % (e as int) == 0 implies #[trigger] divs@.contains(
            e) by {
                if e < d {
                    assert(before.contains(e));
                    let i = choose|i: int| 0 <= i < before.len() && before[i] == e;
                    assert(divs@[i] == e);
                } else {
                    assert(divs@[before.len() as int] == e);
                }
            }
        }
    }
    divs
}

/// What counts when choices are compared.
#[derive(Clone, Copy, Debug, PartialEq, Eq, Structural)]
pub enum PlaceKind {
    /// A grid of cores that share operands.
    Grid,
    /// Groups of cores, each with its own batches.
    Batched,
    /// Independent cores for a single row of tiles.
    SingleRow,
    /// Independent cores for several rows of tiles.
    Tall,
}

/// The share of one core and what it costs.
pub struct Share {
    pub kind: PlaceKind,
    pub per_core_m: int,
    pub per_core_n: int,
    pub active: int,
    pub area: int,
    pub padding: int,
    pub batches: int,
    pub kt: int,
    pub baseline: Option<int>,
}

/// The share of one core, as it is kept while searching.
#[derive(Clone, Copy, Debug)]
pub struct Place {
    pub kind: PlaceKind,
    pub per_core_m: usize,
    pub per_core_n: usize,
    pub active: usize,
    pub area: usize,
    pub padding: usize,
    pub batches: usize,
    pub kt: usize,
    pub baseline: Option<usize>,
}

impl View for Place {
    type V = Share;

    open spec fn view(&self) -> Share {
        Share {
            kind: self.kind,
            per_core_m: self.per_core_m as int,
            per_core_n: self.per_core_n as int,
            active: self.active as int,
            area: self.area as int,
            padding: self.padding as int,
            batches: self.batches as int,
            kt: self.kt as int,
            baseline: match self.baseline {
                Some(b) => Some(b as int),
                None => None,
            },
        }
    }
}

/// Tile multiplications of one core: blocks, times the tiles of its output, times its batches.
pub open spec fn share_work(s: Share, block_w: int) -> int {
    s.batches * (s.kt / block_w) * s.per_core_m * s.per_core_n
}

/// The largest block width for an output of the given number of tiles.
pub open spec fn width_cap(out_tiles: int) -> int {
    if out_tiles <= 16 {
        32
    } else {
        64
    }
}

/// Whether subblocks of `h` by `w` tiles and blocks of width `divs[d]` suit a share.
pub open spec fn suits(s: Share, divs: Seq<usize>, h: int, w: int, d: int) -> bool {
    &&& 1 <= h <= 8
    &&& 1 <= w <= 8
    &&& h * w <= 8
    &&& s.per_core_m % h == 0
    &&& s.per_core_n % w == 0
    &&& 0 <= d < divs.len()
    &&& divs[d] <= width_cap(s.per_core_m * s.per_core_n)
    &&& blocks_fit(s.per_core_m, s.per_core_n, divs[d] as int)
    &&& s.kind == PlaceKind::Batched ==> s.baseline is Some && share_work(s, divs[d] as int)
        < s.baseline->0
}

/// The score of a choice.
pub open spec fn rating(s: Share, h: int, w: int, block_w: int) -> Score {
    let bias = arith::min2(s.per_core_m * s.per_core_n, 16);
    let reach = s.active * block_w * bias * bias;
    let idle = usize::MAX - s.padding;
    let spare = usize::MAX - share_work(s, block_w);
    match s.kind {
        PlaceKind::Grid => (reach, usize::MAX - s.area, s.active * block_w, h * w, s.active),
        PlaceKind::Batched => (spare, s.active, idle, block_w, h * w),
        PlaceKind::SingleRow => (spare, idle, s.active, h * w, block_w),
        PlaceKind::Tall => (h * w, reach, idle, s.active * block_w, s.active),
    }
}

/// Whether the numbers that a share gives rise to are machine words.
pub open spec fn share_limits(s: Share) -> bool {
    &&& 0 <= s.per_core_m
    &&& 0 <= s.per_core_n
    &&& s.per_core_m * 262144 + s.per_core_n * 262144 + s.per_core_m * s.per_core_n * 2048 + 4096
        <= usize::MAX
    &&& 0 <= s.active
    &&& s.active * 16384 <= usize::MAX
    &&& 0 <= s.batches
    &&& 0 <= s.kt
    &&& s.batches * s.kt * s.per_core_m * s.per_core_n <= usize::MAX
}

fn place_fits(p: &Place, block_w: usize) -> (r: bool)
    requires
        share_limits(p@),
        block_w <= 64,
    ensures
        r == blocks_fit(p.per_core_m as int, p.per_core_n as int, block_w as int),
{
    let m: usize = p.per_core_m;
    let n: usize = p.per_core_n;
    proof {
        let bw = block_w as int;
        assert(0 <= 2 * m * bw * 2048 <= m * 262144) by (nonlinear_arith)
            requires
                0 <= bw <= 64,
                m >= 0,
        ;
        assert(0 <= 2 * n * bw * 2048 <= n * 262144) by (nonlinear_arith)
            requires
                0 <= bw <= 64,
                n >= 0,
        ;
        assert(0 <= 2 * m * bw <= 2 * m * bw * 2048) by (nonlinear_arith)
            requires
                0 <= bw,
                m >= 0,
        ;
        assert(0 <= 2 * n * bw <= 2 * n * bw * 2048) by (nonlinear_arith)
            requires
                0 <= bw,
                n >= 0,
        ;
        assert(0 <= m * n <= m * n * 2048) by (nonlinear_arith)
            requires
                m >= 0,
                n >= 0,
        ;
    }
    2 * m * block_w * TILE_BYTES + 2 * n * block_w * TILE_BYTES + m * n * TILE_BYTES + 2
        * TILE_BYTES <= L1_DATA_BYTES
}

fn place_work(p: &Place, block_w: usize) -> (r: usize)
    requires
        share_limits(p@),
        block_w >= 1,
    ensures
        r == share_work(p@, block_w as int),
{
    let blocks: usize = p.kt / block_w;
    proof {
        let k = p.kt as int;
        let q = blocks as int;
        let b = p.batches as int;
        let m = p.per_core_m as int;
        let n = p.per_core_n as int;
        lemma_div_is_ordered_by_denominator(k, 1, block_w as int);
        lemma_div_pos_is_pos(k, block_w as int);
        assert(0 <= q <= k);
        assert(0 <= b * q <= b * k) by (nonlinear_arith)
            requires
                0 <= q <= k,
                b >= 0,
        ;
        let x = b * q;
        let y = b * k;
        assert(0 <= x * m <= y * m) by (nonlinear_arith)
            requires
                0 <= x <= y,
                m >= 0,
        ;
        let xm = x * m;
        let ym = y * m;
        assert(0 <= xm * n <= ym * n) by (nonlinear_arith)
            requires
                0 <= xm <= ym,
                n >= 0,
        ;
        if n == 0 {
            lemma_work_bound_zero(b, q, m);
        } else {
            assert(xm <= xm * n) by (nonlinear_arith)
                requires
                    xm >= 0,
                    n >= 1,
            ;
        }
        if m == 0 {
        } else {
            assert(x <= xm) by (nonlinear_arith)
                requires
                    x >= 0,
                    m >= 1,
                    xm == x * m,
            ;
        }
    }
    if p.per_core_m == 0 || p.per_core_n == 0 {
        proof {
            let b = p.batches as int;
            let q = blocks as int;
            let m = p.per_core_m as int;
            let n = p.per_core_n as int;
            assert(b * q * m * n == 0) by (nonlinear_arith)
                requires
                    m == 0 || n == 0,
            ;
        }
        return 0;
    }
    p.batches * blocks * p.per_core_m * p.per_core_n
}

proof fn lemma_work_bound_zero(b: int, q: int, m: int)
    ensures
        b * q * m * 0 == 0,
{
}

fn place_rating(p: &Place, h: usize, w: usize, block_w: usize) -> (r: ScoreWords)
    requires
        share_limits(p@),
        1 <= block_w <= 64,
        h * w <= 8,
    ensures
        (r.0 as int, r.1 as int, r.2 as int, r.3 as int, r.4 as int) == rating(
            p@,
            h as int,
            w as int,
            block_w as int,
        ),
{
    proof {
        assert(p.per_core_m * p.per_core_n * 2048 >= p.per_core_m * p.per_core_n) by (nonlinear_arith)
            requires
                p.per_core_m >= 0,
                p.per_core_n >= 0,
        ;
        assert(p.per_core_m * p.per_core_n >= 0) by (nonlinear_arith);
    }
    let bias: usize = arith::min_usize(p.per_core_m * p.per_core_n, 16);
    proof {
        let a = p.active as int;
        let bw = block_w as int;
        let s = bias as int;
        assert(0 <= a * bw <= a * 64) by (nonlinear_arith)
            requires
                a >= 0,
                1 <= bw <= 64,
        ;
        let ab = a * bw;
        assert(0 <= ab * s <= ab * 16) by (nonlinear_arith)
            requires
                ab >= 0,
                0 <= s <= 16,
        ;
        let abs = ab * s;
        assert(0 <= abs * s <= abs * 16) by (nonlinear_arith)
            requires
                abs >= 0,
                0 <= s <= 16,
        ;
        assert(abs * s <= a * 16384);
    }
    let reach: usize = p.active * block_w * bias * bias;
    match p.kind {
        PlaceKind::Grid => (reach, usize::MAX - p.area, p.active * block_w, h * w, p.active),
        PlaceKind::Batched => (
            usize::MAX - place_work(p, block_w),
            p.active,
            usize::MAX - p.padding,
            block_w,
            h * w,
        ),
        PlaceKind::SingleRow => (
            usize::MAX - place_work(p, block_w),
            usize::MAX - p.padding,
            p.active,
            h * w,
            block_w,
        ),
        PlaceKind::Tall => (
            h * w,
            reach,
            usize::MAX - p.padding,
            p.active * block_w,
            p.active,
        ),
    }
}

/// A choice with its score, as it is kept while searching.
#[derive(Clone, Copy, Debug)]
pub struct Found {
    pub a: usize,
    pub b: usize,
    pub c: usize,
    pub h: usize,
    pub w: usize,
    pub d: usize,
    pub score: ScoreWords,
}

impl View for Found {
    type V = Choice;

    open spec fn view(&self) -> Choice {
        Choice {
            a: self.a as int,
            b: self.b as int,
            c: self.c as int,
            h: self.h as int,
            w: self.w as int,
            d: self.d as int,
        }
    }
}

pub open spec fn found_choice(f: Option<Found>) -> Option<Choice> {
    match f {
        Some(f) => Some(f@),
        None => None,
    }
}

/// Whether the kept score is that of the choice.
pub open spec fn scored(f: Option<Found>, score: spec_fn(Choice) -> Score) -> bool {
    match f {
        Some(f) => (
            f.score.0 as int,
            f.score.1 as int,
            f.score.2 as int,
            f.score.3 as int,
            f.score.4 as int,
        ) == score(f@),
        None => true,
    }
}

/// The part of the search that a placement leaves open.
pub open spec fn opens(
    valid: spec_fn(Choice) -> bool,
    score: spec_fn(Choice) -> Score,
    s: Share,
    divs: Seq<usize>,
    a: int,
    b: int,
    c: int,
) -> bool {
    forall|p: Choice| #![trigger valid(p)]
        p.a == a && p.b == b && p.c == c ==> {
            &&& valid(p) == suits(s, divs, p.h, p.w, p.d)
            &&& valid(p) ==> score(p) == rating(s, p.h, p.w, divs[p.d] as int)
        }
}

/// Tries all subblocks and block widths for one placement.
fn search_place(
    p: &Place,
    divs: &Vec<usize>,
    a: usize,
    b: usize,
    c: usize,
    start: Option<Found>,
    Ghost(valid): Ghost<spec_fn(Choice) -> bool>,
    Ghost(score): Ghost<spec_fn(Choice) -> Score>,
) -> (best: Option<Found>)
    requires
        share_limits(p@),
        c < usize::MAX,
        forall|i: int| 0 <= i < divs@.len() ==> #[trigger] divs@[i] >= 1,
        opens(valid, score, p@, divs@, a as int, b as int, c as int),
        forall|q: Choice| #[trigger] valid(q) ==> q.h >= 1,
        search::best_before(
            valid,
            score,
            found_choice(start),
            (Choice { a: a as int, b: b as int, c: c as int, h: 0, w: 0, d: 0 }),
        ),
        scored(start, score),
    ensures
        search::best_before(
            valid,
            score,
            found_choice(best),
            (Choice { a: a as int, b: b as int, c: c + 1, h: 0, w: 0, d: 0 }),
        ),
        scored(best, score),
{
    let mut best: Option<Found> = start;
    let ghost s = p@;
    proof {
        assert(s.per_core_m * s.per_core_n * 2048 >= s.per_core_m * s.per_core_n) by (nonlinear_arith)
            requires
                s.per_core_m >= 0,
                s.per_core_n >= 0,
        ;
        assert(s.per_core_m * s.per_core_n >= 0) by (nonlinear_arith)
            requires
                s.per_core_m >= 0,
                s.per_core_n >= 0,
        ;
    }
    let cap: usize = if p.per_core_m * p.per_core_n <= 16 {
        32
    } else {
        64
    };
    let ghost at = Choice { a: a as int, b: b as int, c: c as int, h: 0, w: 0, d: 0 };
    proof {
        search::lemma_skip(valid, score, found_choice(best), at, Choice { h: 1, ..at });
    }
    for h in 1..9usize
        invariant
            s == p@,
            share_limits(s),
            cap == width_cap(s.per_core_m * s.per_core_n),
            forall|i: int| 0 <= i < divs@.len() ==> #[trigger] divs@[i] >= 1,
            opens(valid, score, s, divs@, a as int, b as int, c as int),
            at == (Choice { a: a as int, b: b as int, c: c as int, h: 0, w: 0, d: 0 }),
            search::best_before(
                valid,
                score,
                found_choice(best),
                (Choice { h: h as int, ..at }),
            ),
            scored(best, score),
    {
        proof {
            search::lemma_skip(
                valid,
                score,
                found_choice(best),
                Choice { h: h as int, ..at },
                Choice { h: h as int, w: 1, ..at },
            );
        }
        for w in 1..9usize
            invariant
                s == p@,
                share_limits(s),
                1 <= h <= 8,
                cap == width_cap(s.per_core_m * s.per_core_n),
                forall|i: int| 0 <= i < divs@.len() ==> #[trigger] divs@[i] >= 1,
                opens(valid, score, s, divs@, a as int, b as int, c as int),
                at == (Choice { a: a as int, b: b as int, c: c as int, h: 0, w: 0, d: 0 }),
                search::best_before(
                    valid,
                    score,
                    found_choice(best),
                    (Choice { h: h as int, w: w as int, ..at }),
                ),
                scored(best, score),
        {
            let ghost row = Choice { h: h as int, w: w as int, ..at };
            assert(h * w <= 64) by (nonlinear_arith)
                requires
                    1 <= h <= 8,
                    1 <= w <= 8,
            ;
            if h * w <= 8 && p.per_core_m % h == 0 && p.per_core_n % w == 0 {
                for d in 0..divs.len()
                    invariant
                        s == p@,
                        share_limits(s),
                        1 <= h <= 8,
                        1 <= w <= 8,
                        h * w <= 8,
                        p.per_core_m % h == 0,
                        p.per_core_n % w == 0,
                        cap == width_cap(s.per_core_m * s.per_core_n),
                        forall|i: int| 0 <= i < divs@.len() ==> #[trigger] divs@[i] >= 1,
                        opens(valid, score, s, divs@, a as int, b as int, c as int),
                        at == (Choice { a: a as int, b: b as int, c: c as int, h: 0, w: 0, d: 0 }),
                        row == (Choice { h: h as int, w: w as int, ..at }),
                        search::best_before(
                            valid,
                            score,
                            found_choice(best),
                            (Choice { d: d as int, ..row }),
                        ),
                        scored(best, score),
                {
                    let ghost here = Choice { d: d as int, ..row };
                    let ghost next = Choice { d: d + 1, ..row };
                    let block_w: usize = divs[d];
                    assert(valid(here) == suits(s, divs@, h as int, w as int, d as int));
                    let mut ok: bool = block_w <= cap && place_fits(p, block_w);
                    if ok && p.kind == PlaceKind::Batched {
                        ok =
                        match p.baseline {
                            Some(limit) => place_work(p, block_w) < limit,
                            None => false,
                        };
                    }
                    assert(ok == valid(here));
                    if ok {
                        let score_here: ScoreWords = place_rating(p, h, w, block_w);
                        let better: bool = match best {
                            None => true,
                            Some(f) => search::score_beats(score_here, f.score),
                        };
                        proof {
                            search::lemma_take(valid, score, found_choice(best), here, next);
                        }
                        if better {
                            best = Some(Found { a, b, c, h, w, d, score: score_here });
                        }
                    } else {
                        proof {
                            assert forall|q: Choice| #[trigger]
                                valid(q) && search::earlier(q, next) implies search::earlier(
                                q,
                                here,
                            ) by {
                                if !search::earlier(q, here) {
                                    assert(q == here);
                                }
                            }
                            search::lemma_skip(valid, score, found_choice(best), here, next);
                        }
                    }
                }
                proof {
                    let from = Choice { d: divs@.len() as int, ..row };
                    let to = Choice { h: h as int, w: w + 1, ..at };
                    assert forall|q: Choice| #[trigger] valid(q) && search::earlier(q, to) implies
                        search::earlier(q, from) by {
                        if q.a == a && q.b == b && q.c == c && q.h == h && q.w == w {
                            assert(suits(s, divs@, q.h, q.w, q.d));
                        }
                    }
                    search::lemma_skip(valid, score, found_choice(best), from, to);
                }
            } else {
                proof {
                    let to = Choice { h: h as int, w: w + 1, ..at };
                    assert forall|q: Choice| #[trigger] valid(q) && search::earlier(q, to) implies
                        search::earlier(q, row) by {
                        if q.a == a && q.b == b && q.c == c && q.h == h && q.w == w {
                            assert(suits(s, divs@, q.h, q.w, q.d));
                        }
                    }
                    search::lemma_skip(valid, score, found_choice(best), row, to);
                }
            }
        }
        proof {
            let from = Choice { h: h as int, w: 9, ..at };
            let to = Choice { h: h + 1, ..at };
            assert forall|q: Choice| #[trigger] valid(q) && search::earlier(q, to) implies search::earlier(
                q,
                from,
            ) by {
                if q.a == a && q.b == b && q.c == c && q.h == h {
                    assert(suits(s, divs@, q.h, q.w, q.d));
                }
            }
            search::lemma_skip(valid, score, found_choice(best), from, to);
        }
    }
    proof {
        let from = Choice { h: 9, ..at };
        let to = Choice { c: c + 1, ..at };
        assert forall|q: Choice| #[trigger] valid(q) && search::earlier(q, to) implies search::earlier(
            q,
            from,
        ) by {
            if q.a == a && q.b == b && q.c == c {
                assert(suits(s, divs@, q.h, q.w, q.d));
            }
        }
        search::lemma_skip(valid, score, found_choice(best), from, to);
    }
    best
}

/// How a matrix multiplication is spread over the cores.
#[derive(Debug)]
pub struct MatmulPlan {
    pub rows: Vec<u8>,
    pub cols: Vec<u8>,
    pub direct_grid: Option<Vec<Vec<CoreCoord>>>,
    pub batch_groups: usize,
    pub batches_per_group: usize,
    pub mt: usize,
    pub kt: usize,
    pub nt: usize,
    pub per_core_m: usize,
    pub per_core_n: usize,
    pub in0_block_w: usize,
    pub out_subblock_h: usize,
    pub out_subblock_w: usize,
}

/// What a contract says of a plan.
pub struct Plan {
    pub rows: Seq<u8>,
    pub cols: Seq<u8>,
    pub direct_grid: Option<Seq<Seq<CoreCoord>>>,
    pub batch_groups: int,
    pub batches_per_group: int,
    pub mt: int,
    pub kt: int,
    pub nt: int,
    pub per_core_m: int,
    pub per_core_n: int,
    pub in0_block_w: int,
    pub out_subblock_h: int,
    pub out_subblock_w: int,
}

pub open spec fn nested(grid: Seq<Vec<CoreCoord>>) -> Seq<Seq<CoreCoord>> {
    grid.map_values(|row: Vec<CoreCoord>| row@)
}

impl View for MatmulPlan {
    type V = Plan;

    open spec fn view(&self) -> Plan {
        Plan {
            rows: self.rows@,
            cols: self.cols@,
            direct_grid: match self.direct_grid {
                Some(grid) => Some(nested(grid@)),
                None => None,
            },
            batch_groups: self.batch_groups as int,
            batches_per_group: self.batches_per_group as int,
            mt: self.mt as int,
            kt: self.kt as int,
            nt: self.nt as int,
            per_core_m: self.per_core_m as int,
            per_core_n: self.per_core_n as int,
            in0_block_w: self.in0_block_w as int,
            out_subblock_h: self.out_subblock_h as int,
            out_subblock_w: self.out_subblock_w as int,
        }
    }
}

/// Whether the numbers that planning gives rise to are machine words.
pub open spec fn plan_limits(mt: int, kt: int, nt: int, batch: int, cores: int) -> bool {
    &&& mt * 262144 + nt * 262144 + mt * nt * 2048 + 4096 <= usize::MAX
    &&& cores * 16384 <= usize::MAX
    &&& batch * kt * mt * nt <= usize::MAX
    &&& 4 * mt * (nt + cores) * (cores + 1) <= usize::MAX
}

/// Tests the limits of a plan.
pub fn within_limits(mt: usize, kt: usize, nt: usize, batch: usize, cores: usize) -> (r: bool)
    ensures
        r == plan_limits(mt as int, kt as int, nt as int, batch as int, cores as int),
{
    let ghost (m, k, n, b, c) = (mt as int, kt as int, nt as int, batch as int, cores as int);
    let rows = arith::product_word(Some(mt), Some(262144), Ghost(m), Ghost(262144));
    let columns = arith::product_word(Some(nt), Some(262144), Ghost(n), Ghost(262144));
    let sides = arith::sum_word(rows, columns, Ghost(m * 262144), Ghost(n * 262144));
    let face = arith::product_word(Some(mt), Some(nt), Ghost(m), Ghost(n));
    let pages = arith::product_word(face, Some(2048), Ghost(m * n), Ghost(2048));
    let both = arith::sum_word(
        sides,
        pages,
        Ghost(m * 262144 + n * 262144),
        Ghost(m * n * 2048),
    );
    let memory = arith::sum_word(
        both,
        Some(4096),
        Ghost(m * 262144 + n * 262144 + m * n * 2048),
        Ghost(4096),
    );
    let spread = arith::product_word(Some(cores), Some(16384), Ghost(c), Ghost(16384));
    let deep = arith::product_word(Some(batch), Some(kt), Ghost(b), Ghost(k));
    let tall = arith::product_word(deep, Some(mt), Ghost(b * k), Ghost(m));
    let work = arith::product_word(tall, Some(nt), Ghost(b * k * m), Ghost(n));
    let four = arith::product_word(Some(4), Some(mt), Ghost(4), Ghost(m));
    let wide = arith::sum_word(Some(nt), Some(cores), Ghost(n), Ghost(c));
    let more = arith::sum_word(Some(cores), Some(1), Ghost(c), Ghost(1));
    let field = arith::product_word(four, wide, Ghost(4 * m), Ghost(n + c));
    let grid = arith::product_word(field, more, Ghost(4 * m * (n + c)), Ghost(c + 1));
    memory.is_some() && spread.is_some() && work.is_some() && grid.is_some()
}

/// A multiplication that is to be planned: tiles in each direction, batches, and
/// whether the columns may be split over cores.
pub struct Task {
    pub mt: int,
    pub kt: int,
    pub nt: int,
    pub batch: int,
    pub split_columns: bool,
}

/// Whether `b` rows and `c` columns of cores in each of `a` groups can be used.
pub open spec fn direct_placed(
    t: Task,
    cores: int,
    min_groups: int,
    max_groups: int,
    a: int,
    b: int,
    c: int,
) -> bool {
    &&& t.mt > 0
    &&& t.nt > 0
    &&& 1 <= a
    &&& min_groups <= a <= max_groups
    &&& a <= t.batch
    &&& a <= cores
    &&& 1 <= b <= t.mt
    &&& b <= cores / a
    &&& 1 <= c
    &&& if t.split_columns {
        c <= t.nt && c <= (cores / a) / b
    } else {
        c == 1
    }
}

/// The share of each core in a direct placement.
pub open spec fn direct_share(t: Task, baseline: Option<int>, a: int, b: int, c: int) -> Share {
    let m = arith::ceil_div(t.mt, b);
    let n = arith::ceil_div(t.nt, c);
    Share {
        kind: if a > 1 {
            PlaceKind::Batched
        } else if t.mt == 1 {
            PlaceKind::SingleRow
        } else {
            PlaceKind::Tall
        },
        per_core_m: m,
        per_core_n: n,
        active: b * c * a,
        area: 0,
        padding: ((b * m) * (c * n) - t.mt * t.nt) * a,
        batches: arith::ceil_div(t.batch, a),
        kt: t.kt,
        baseline,
    }
}

pub open spec fn direct_valid(
    t: Task,
    cores: int,
    divs: Seq<usize>,
    min_groups: int,
    max_groups: int,
    baseline: Option<int>,
) -> spec_fn(Choice) -> bool {
    |p: Choice|
        direct_placed(t, cores, min_groups, max_groups, p.a, p.b, p.c) && suits(
            direct_share(t, baseline, p.a, p.b, p.c),
            divs,
            p.h,
            p.w,
            p.d,
        )
}

pub open spec fn direct_score(t: Task, divs: Seq<usize>, baseline: Option<int>) -> spec_fn(
    Choice,
) -> Score {
    |p: Choice|
        rating(direct_share(t, baseline, p.a, p.b, p.c), p.h, p.w, divs[p.d] as int)
}

/// The plan that a direct choice stands for: the cores are used in order, row by
/// row, each on its own.
pub open spec fn direct_plan(t: Task, cores: Seq<CoreCoord>, divs: Seq<usize>, p: Choice) -> Plan {
    let s = direct_share(t, None, p.a, p.b, p.c);
    Plan {
        rows: Seq::empty(),
        cols: Seq::empty(),
        direct_grid: Some(
            Seq::new((p.b * p.a) as nat, |i: int| cores.subrange(i * p.c, i * p.c + p.c)),
        ),
        batch_groups: p.a,
        batches_per_group: s.batches,
        mt: p.b * s.per_core_m,
        kt: t.kt,
        nt: p.c * s.per_core_n,
        per_core_m: s.per_core_m,
        per_core_n: s.per_core_n,
        in0_block_w: divs[p.d] as int,
        out_subblock_h: p.h,
        out_subblock_w: p.w,
    }
}

/// The best direct plan with a number of groups between the given limits.
pub open spec fn best_direct(
    t: Task,
    cores: Seq<CoreCoord>,
    divs: Seq<usize>,
    min_groups: int,
    max_groups: int,
    baseline: Option<int>,
) -> Option<Plan> {
    match search::best_choice(
        direct_valid(t, cores.len() as int, divs, min_groups, max_groups, baseline),
        direct_score(t, divs, baseline),
    ) {
        Some(p) => Some(direct_plan(t, cores, divs, p)),
        None => None,
    }
}

/// Bounds on the numbers of a direct placement.
pub proof fn lemma_direct_bounds(
    t: Task,
    cores: int,
    min_groups: int,
    max_groups: int,
    baseline: Option<int>,
    a: int,
    b: int,
    c: int,
)
    requires
        direct_placed(t, cores, min_groups, max_groups, a, b, c),
        plan_limits(t.mt, t.kt, t.nt, t.batch, cores),
        t.kt >= 0,
    ensures
        ({
            let s = direct_share(t, baseline, a, b, c);
            &&& share_limits(s)
            &&& 0 <= b * c <= cores
            &&& 0 <= s.active <= cores
            &&& 0 <= b * s.per_core_m <= usize::MAX
            &&& 0 <= c * s.per_core_n <= usize::MAX
            &&& t.mt * t.nt <= (b * s.per_core_m) * (c * s.per_core_n) <= usize::MAX
            &&& 0 <= s.padding <= usize::MAX
            &&& (b * a) * c == s.active
        }),
{
    let s = direct_share(t, baseline, a, b, c);
    let m = s.per_core_m;
    let n = s.per_core_n;
    arith::lemma_ceil_div(t.mt, b);
    arith::lemma_ceil_div(t.nt, c);
    arith::lemma_ceil_div(t.batch, a);
    arith::lemma_round_up(t.mt, b);
    arith::lemma_round_up(t.nt, c);
    // The cores of a group, and of all groups.
    let g = cores / a;
    lemma_fundamental_div_mod(cores, a);
    assert(g * a <= cores) by (nonlinear_arith)
        requires
            cores == a * g + cores % a,
            cores % a >= 0,
    ;
    if t.split_columns {
        lemma_fundamental_div_mod(g, b);
        let q = g / b;
        assert(b * c <= g) by (nonlinear_arith)
            requires
                g == b * q + g % b,
                g % b >= 0,
                1 <= c <= q,
                b >= 1,
        ;
    } else {
        assert(b * c == b);
    }
    let bc = b * c;
    assert(1 <= bc) by (nonlinear_arith)
        requires
            b >= 1,
            c >= 1,
            bc == b * c,
    ;
    assert(bc <= bc * a <= g * a) by (nonlinear_arith)
        requires
            1 <= bc <= g,
            a >= 1,
    ;
    assert((b * a) * c == (b * c) * a) by (nonlinear_arith);
    // The tiles that are worked on.
    let mm = b * m;
    let nn = c * n;
    assert(mm == m * b) by (nonlinear_arith)
        requires
            mm == b * m,
    ;
    assert(nn == n * c) by (nonlinear_arith)
        requires
            nn == c * n,
    ;
    assert(t.mt <= mm < t.mt + b);
    assert(t.nt <= nn < t.nt + c);
    assert(c <= cores) by (nonlinear_arith)
        requires
            b * c <= cores,
            b >= 1,
            c >= 1,
    ;
    lemma_area(t.mt, t.nt, mm, nn, cores, a);
    // The share of a core is no larger than the whole.
    let mt = t.mt;
    let nt = t.nt;
    assert(m * n <= mt * nt) by (nonlinear_arith)
        requires
            0 <= m <= mt,
            0 <= n <= nt,
    ;
    lemma_work_le(s.batches, t.batch, t.kt, m, mt, n, nt);
}

proof fn lemma_work_le(b: int, batch: int, kt: int, m: int, mt: int, n: int, nt: int)
    requires
        0 <= b <= batch,
        0 <= kt,
        0 <= m <= mt,
        0 <= n <= nt,
    ensures
        b * kt * m * n <= batch * kt * mt * nt,
{
    let x = b * kt;
    let y = batch * kt;
    assert(0 <= x <= y) by (nonlinear_arith)
        requires
            0 <= b <= batch,
            kt >= 0,
            x == b * kt,
            y == batch * kt,
    ;
    let xm = x * m;
    let ym = y * mt;
    assert(0 <= xm <= ym) by (nonlinear_arith)
        requires
            0 <= x <= y,
            0 <= m <= mt,
            xm == x * m,
            ym == y * mt,
    ;
    assert(xm * n <= ym * nt) by (nonlinear_arith)
        requires
            0 <= xm <= ym,
            0 <= n <= nt,
    ;
}

proof fn lemma_area(mt: int, nt: int, mm: int, nn: int, cores: int, a: int)
    requires
        1 <= mt <= mm < 2 * mt,
        1 <= nt <= nn,
        nn < nt + cores,
        1 <= a <= cores,
        4 * mt * (nt + cores) * (cores + 1) <= usize::MAX,
    ensures
        mm <= usize::MAX,
        nn <= usize::MAX,
        mt * nt <= mm * nn <= usize::MAX,
        0 <= (mm * nn - mt * nt) * a <= usize::MAX,
{
    let wide = nt + cores;
    let x = mm * nn;
    let y = 2 * mt * wide;
    assert(x <= y) by (nonlinear_arith)
        requires
            0 <= mm <= 2 * mt,
            0 <= nn <= wide,
            x == mm * nn,
            y == 2 * mt * wide,
    ;
    assert(mt * nt <= mm * nn) by (nonlinear_arith)
        requires
            0 <= mt <= mm,
            0 <= nt <= nn,
    ;
    assert(mt * nt >= 0) by (nonlinear_arith)
        requires
            mt >= 1,
            nt >= 1,
    ;
    assert(2 * y == 4 * mt * wide) by (nonlinear_arith)
        requires
            y == 2 * mt * wide,
    ;
    let z = 2 * y;
    assert(z * (cores + 1) >= z) by (nonlinear_arith)
        requires
            z >= 0,
            cores >= 1,
    ;
    let extra = x - mt * nt;
    assert(0 <= extra * a <= z * (cores + 1)) by (nonlinear_arith)
        requires
            0 <= extra <= z,
            1 <= a <= cores,
    ;
    assert(mm <= y && nn <= y) by (nonlinear_arith)
        requires
            mm < 2 * mt,
            nn < wide,
            wide >= 1,
            mt >= 1,
            y == 2 * mt * wide,
    ;
}

fn copy_row(cores: &[CoreCoord], from: usize, n: usize) -> (r: Vec<CoreCoord>)
    requires
        from + n <= cores@.len(),
    ensures
        r@ == cores@.subrange(from as int, from + n),
{
    let total: usize = cores.len();
    let mut out: Vec<CoreCoord> = Vec::new();
    for i in 0..n
        invariant
            from + n <= cores@.len() == total,
            out@ == cores@.subrange(from as int, from + i),
    {
        out.push(cores[from + i]);
        assert(out@ =~= cores@.subrange(from as int, from + i + 1));
    }
    out
}

fn rows_of_cores(cores: &[CoreCoord], rows: usize, cols: usize) -> (grid: Vec<Vec<CoreCoord>>)
    requires
        rows * cols <= cores@.len(),
        cols >= 1,
    ensures
        nested(grid@) == Seq::new(
            rows as nat,
            |i: int| cores@.subrange(i * cols, i * cols + cols),
        ),
{
    let total: usize = cores.len();
    let mut grid: Vec<Vec<CoreCoord>> = Vec::new();
    let ghost want = Seq::new(rows as nat, |i: int| cores@.subrange(i * cols, i * cols + cols));
    for i in 0..rows
        invariant
            rows * cols <= cores@.len() == total,
            cols >= 1,
            want == Seq::new(rows as nat, |i: int| cores@.subrange(i * cols, i * cols + cols)),
            nested(grid@) == want.take(i as int),
    {
        assert(i * cols + cols <= rows * cols) by (nonlinear_arith)
            requires
                i < rows,
        ;
        assert(i * cols >= 0) by (nonlinear_arith);
        let row = copy_row(cores, i * cols, cols);
        let ghost rv = row@;
        grid.push(row);
        assert(nested(grid@) =~= want.take(i as int).push(rv));
        assert(want.take(i + 1) =~= want.take(i as int).push(want[i as int]));
    }
    assert(nested(grid@) =~= want);
    grid
}

/// Plans with every core on its own; the choice with the best score is taken.
pub fn plan_direct_matmul(
    mt_base: usize,
    kt: usize,
    nt_base: usize,
    cores: &[CoreCoord],
    kt_divs: &Vec<usize>,
    batch_count: usize,
    allow_column_split: bool,
    min_batch_groups: usize,
    max_batch_groups: usize,
    baseline_work: Option<usize>,
) -> (r: Option<MatmulPlan>)
    requires
        plan_limits(
            mt_base as int,
            kt as int,
            nt_base as int,
            batch_count as int,
            cores@.len() as int,
        ),
        forall|i: int| 0 <= i < kt_divs@.len() ==> #[trigger] kt_divs@[i] >= 1,
    ensures
        ({
            let t = Task {
                mt: mt_base as int,
                kt: kt as int,
                nt: nt_base as int,
                batch: batch_count as int,
                split_columns: allow_column_split,
            };
            let baseline = match baseline_work {
                Some(b) => Some(b as int),
                None => None,
            };
            let want = best_direct(
                t,
                cores@,
                kt_divs@,
                min_batch_groups as int,
                max_batch_groups as int,
                baseline,
            );
            match r {
                Some(plan) => want == Some(plan@),
                None => want is None,
            }
        }),
{
    let ghost t = Task {
        mt: mt_base as int,
        kt: kt as int,
        nt: nt_base as int,
        batch: batch_count as int,
        split_columns: allow_column_split,
    };
    let ghost baseline = match baseline_work {
        Some(b) => Some(b as int),
        None => None,
    };
    let total: usize = cores.len();
    let ghost valid = direct_valid(
        t,
        total as int,
        kt_divs@,
        min_batch_groups as int,
        max_batch_groups as int,
        baseline,
    );
    let ghost score = direct_score(t, kt_divs@, baseline);
    if mt_base == 0 || nt_base == 0 {
        proof {
            search::lemma_best_none(valid, score);
        }
        return None;
    }
    let first: usize = arith::max_usize(min_batch_groups, 1);
    let last: usize = arith::min_usize(arith::min_usize(max_batch_groups, batch_count), total);
    if first > last {
        proof {
            search::lemma_best_none(valid, score);
        }
        return None;
    }
    let mut best: Option<Found> = None;
    let mut a: usize = first;
    assert(search::best_before(
        valid,
        score,
        None,
        Choice { a: first as int, b: 0, c: 0, h: 0, w: 0, d: 0 },
    ));
    while a <= last
        invariant
            total == cores@.len(),
            first == arith::max2(min_batch_groups as int, 1),
            last <= max_batch_groups,
            last <= batch_count,
            last <= total,
            last == max_batch_groups || last == batch_count || last == total,
            first <= a <= last + 1,
            mt_base > 0,
            nt_base > 0,
            t == (Task {
                mt: mt_base as int,
                kt: kt as int,
                nt: nt_base as int,
                batch: batch_count as int,
                split_columns: allow_column_split,
            }),
            baseline == (match baseline_work {
                Some(b) => Some(b as int),
                None => None,
            }),
            plan_limits(t.mt, t.kt, t.nt, t.batch, total as int),
            forall|i: int| 0 <= i < kt_divs@.len() ==> #[trigger] kt_divs@[i] >= 1,
            valid == direct_valid(
                t,
                total as int,
                kt_divs@,
                min_batch_groups as int,
                max_batch_groups as int,
                baseline,
            ),
            score == direct_score(t, kt_divs@, baseline),
            search::best_before(
                valid,
                score,
                found_choice(best),
                (Choice { a: a as int, b: 0, c: 0, h: 0, w: 0, d: 0 }),
            ),
            scored(best, score),
            total * 16384 <= usize::MAX,
        decreases last + 1 - a,
    {
        let group: usize = total / a;
        let batches: usize = arith::div_ceil(batch_count, a);
        let ghost at = Choice { a: a as int, b: 0, c: 0, h: 0, w: 0, d: 0 };
        let top: usize = arith::min_usize(mt_base, group);
        proof {
            search::lemma_skip(valid, score, found_choice(best), at, Choice { b: 1, ..at });
        }
        let mut b: usize = 1;
        while b <= top
            invariant
                total == cores@.len(),
                min_batch_groups <= a,
                1 <= a <= max_batch_groups,
                a <= batch_count,
                a <= total,
                mt_base > 0,
                nt_base > 0,
                group == total / a,
                top == arith::min2(mt_base as int, group as int),
                1 <= b <= top + 1,
                batches == arith::ceil_div(batch_count as int, a as int),
                t == (Task {
                    mt: mt_base as int,
                    kt: kt as int,
                    nt: nt_base as int,
                    batch: batch_count as int,
                    split_columns: allow_column_split,
                }),
                baseline == (match baseline_work {
                    Some(b) => Some(b as int),
                    None => None,
                }),
                plan_limits(t.mt, t.kt, t.nt, t.batch, total as int),
                forall|i: int| 0 <= i < kt_divs@.len() ==> #[trigger] kt_divs@[i] >= 1,
                valid == direct_valid(
                    t,
                    total as int,
                    kt_divs@,
                    min_batch_groups as int,
                    max_batch_groups as int,
                    baseline,
                ),
                score == direct_score(t, kt_divs@, baseline),
                at == (Choice { a: a as int, b: 0, c: 0, h: 0, w: 0, d: 0 }),
                search::best_before(
                    valid,
                    score,
                    found_choice(best),
                    (Choice { b: b as int, ..at }),
                ),
                scored(best, score),
                total * 16384 <= usize::MAX,
                group <= total,
            decreases top + 1 - b,
        {
            let max_cols: usize = if allow_column_split {
                arith::min_usize(nt_base, group / b)
            } else {
                1
            };
            let ghost row = Choice { b: b as int, ..at };
            proof {
                search::lemma_skip(valid, score, found_choice(best), row, Choice { c: 1, ..row });
                lemma_div_is_ordered_by_denominator(group as int, 1, b as int);
                assert(max_cols <= total);
            }
            let mut c: usize = 1;
            while c <= max_cols
                invariant
                    total == cores@.len(),
                    min_batch_groups <= a,
                    1 <= a <= max_batch_groups,
                    a <= batch_count,
                    a <= total,
                    mt_base > 0,
                    nt_base > 0,
                    group == total / a,
                    1 <= b <= mt_base,
                    b <= group,
                    max_cols == (if allow_column_split {
                        arith::min2(nt_base as int, group as int / b as int)
                    } else {
                        1
                    }),
                    max_cols <= total,
                    total * 16384 <= usize::MAX,
                    1 <= c <= max_cols + 1,
                    batches == arith::ceil_div(batch_count as int, a as int),
                    t == (Task {
                        mt: mt_base as int,
                        kt: kt as int,
                        nt: nt_base as int,
                        batch: batch_count as int,
                        split_columns: allow_column_split,
                    }),
                    baseline == (match baseline_work {
                        Some(b) => Some(b as int),
                        None => None,
                    }),
                    plan_limits(t.mt, t.kt, t.nt, t.batch, total as int),
                    forall|i: int| 0 <= i < kt_divs@.len() ==> #[trigger] kt_divs@[i] >= 1,
                    valid == direct_valid(
                        t,
                        total as int,
                        kt_divs@,
                        min_batch_groups as int,
                        max_batch_groups as int,
                        baseline,
                    ),
                    score == direct_score(t, kt_divs@, baseline),
                    row == (Choice { a: a as int, b: b as int, c: 0, h: 0, w: 0, d: 0 }),
                    search::best_before(
                        valid,
                        score,
                        found_choice(best),
                        (Choice { c: c as int, ..row }),
                    ),
                    scored(best, score),
                decreases max_cols + 1 - c,
            {
                proof {
                    lemma_direct_bounds(
                        t,
                        total as int,
                        min_batch_groups as int,
                        max_batch_groups as int,
                        baseline,
                        a as int,
                        b as int,
                        c as int,
                    );
                }
                let ghost s = direct_share(t, baseline, a as int, b as int, c as int);
                let m: usize = arith::div_ceil(mt_base, b);
                let n: usize = arith::div_ceil(nt_base, c);
                let active: usize = b * c * a;
                let rows: usize = b * m;
                let cols: usize = c * n;
                proof {
                    assert(0 <= mt_base * nt_base) by (nonlinear_arith);
                }
                let padding: usize = (rows * cols - mt_base * nt_base) * a;
                let place = Place {
                    kind: if a > 1 {
                        PlaceKind::Batched
                    } else if mt_base == 1 {
                        PlaceKind::SingleRow
                    } else {
                        PlaceKind::Tall
                    },
                    per_core_m: m,
                    per_core_n: n,
                    active,
                    area: 0,
                    padding,
                    batches,
                    kt,
                    baseline: baseline_work,
                };
                assert(place@ == s);
                best =
                search_place(&place, kt_divs, a, b, c, best, Ghost(valid), Ghost(score));
                c = c + 1;
            }
            proof {
                let from = Choice { c: max_cols + 1, ..row };
                let to = Choice { b: b + 1, ..at };
                assert forall|q: Choice| #[trigger] valid(q) && search::earlier(q, to) implies
                    search::earlier(q, from) by {
                    if q.a == a && q.b == b {
                        assert(direct_placed(
                            t,
                            total as int,
                            min_batch_groups as int,
                            max_batch_groups as int,
                            q.a,
                            q.b,
                            q.c,
                        ));
                    }
                }
                search::lemma_skip(valid, score, found_choice(best), from, to);
            }
            b = b + 1;
        }
        proof {
            let from = Choice { b: top + 1, ..at };
            let to = Choice { a: a + 1, ..at };
            assert forall|q: Choice| #[trigger] valid(q) && search::earlier(q, to) implies search::earlier(
                q,
                from,
            ) by {
                if q.a == a {
                    assert(direct_placed(
                        t,
                        total as int,
                        min_batch_groups as int,
                        max_batch_groups as int,
                        q.a,
                        q.b,
                        q.c,
                    ));
                }
            }
            search::lemma_skip(valid, score, found_choice(best), from, to);
        }
        a = a + 1;
    }
    proof {
        search::lemma_done(
            valid,
            score,
            found_choice(best),
            Choice { a: a as int, b: 0, c: 0, h: 0, w: 0, d: 0 },
        );
    }
    match best {
        None => None,
        Some(f) => {
            assert(valid(f@));
            proof {
                lemma_direct_bounds(
                    t,
                    total as int,
                    min_batch_groups as int,
                    max_batch_groups as int,
                    baseline,
                    f.a as int,
                    f.b as int,
                    f.c as int,
                );
                assert(f.b * f.a <= (f.b * f.a) * f.c) by (nonlinear_arith)
                    requires
                        f.c >= 1,
                        f.b >= 0,
                        f.a >= 0,
                ;
            }
            let m: usize = arith::div_ceil(mt_base, f.b);
            let n: usize = arith::div_ceil(nt_base, f.c);
            let grid = rows_of_cores(cores, f.b * f.a, f.c);
            let plan = MatmulPlan {
                rows: Vec::new(),
                cols: Vec::new(),
                direct_grid: Some(grid),
                batch_groups: f.a,
                batches_per_group: arith::div_ceil(batch_count, f.a),
                mt: f.b * m,
                kt,
                nt: f.c * n,
                per_core_m: m,
                per_core_n: n,
                in0_block_w: kt_divs[f.d],
                out_subblock_h: f.h,
                out_subblock_w: f.w,
            };
            assert(plan@.direct_grid->0 =~= direct_plan(t, cores@, kt_divs@, f@).direct_grid->0);
            Some(plan)
        },
    }
}

/// In ascending order without repetitions.
pub open spec fn climbing(s: Seq<u8>) -> bool {
    forall|i: int, j: int| 0 <= i < j < s.len() ==> #[trigger] s[i] < #[trigger] s[j]
}

pub open spec fn climbing_words(s: Seq<usize>) -> bool {
    forall|i: int, j: int| 0 <= i < j < s.len() ==> #[trigger] s[i] < #[trigger] s[j]
}

/// Two ascending lists with the same elements are the same.
proof fn lemma_climbing_unique(a: Seq<u8>, b: Seq<u8>)
    requires
        climbing(a),
        climbing(b),
        forall|x: u8| a.contains(x) <==> b.contains(x),
    ensures
        a == b,
    decreases a.len(),
{
    if a.len() == 0 {
        if b.len() > 0 {
            assert(b.contains(b[0]));
        }
        assert(a =~= b);
    } else {
        assert(a.contains(a.last()));
        assert(b.contains(a.last()));
        assert(b.contains(b.last()));
        assert(a.contains(b.last()));
        let i = choose|i: int| 0 <= i < b.len() && b[i] == a.last();
        let j = choose|j: int| 0 <= j < a.len() && a[j] == b.last();
        if i < b.len() - 1 && j < a.len() - 1 {
            assert(b[i] < b[b.len() - 1] && a[j] < a[a.len() - 1]);
        }
        assert(a.last() == b.last());
        let pa = a.drop_last();
        let pb = b.drop_last();
        assert forall|x: u8| pa.contains(x) <==> pb.contains(x) by {
            lemma_climbing_drop(a, x);
            lemma_climbing_drop(b, x);
        }
        lemma_climbing_unique(pa, pb);
        assert(a =~= pa.push(a.last()));
        assert(b =~= pb.push(b.last()));
    }
}

proof fn lemma_climbing_drop(a: Seq<u8>, x: u8)
    requires
        climbing(a),
        a.len() > 0,
    ensures
        a.drop_last().contains(x) <==> a.contains(x) && x != a.last(),
{
    let p = a.drop_last();
    if p.contains(x) {
        let i = choose|i: int| 0 <= i < p.len() && p[i] == x;
        assert(a[i] == x);
        assert(a[i] < a[a.len() - 1]);
    }
    if a.contains(x) && x != a.last() {
        let i = choose|i: int| 0 <= i < a.len() && a[i] == x;
        assert(p[i] == x);
    }
}

/// Two ascending lists with the same elements are the same.
proof fn lemma_climbing_words_unique(a: Seq<usize>, b: Seq<usize>)
    requires
        climbing_words(a),
        climbing_words(b),
        forall|x: usize| a.contains(x) <==> b.contains(x),
    ensures
        a == b,
    decreases a.len(),
{
    if a.len() == 0 {
        if b.len() > 0 {
            assert(b.contains(b[0]));
        }
        assert(a =~= b);
    } else {
        assert(a.contains(a.last()));
        assert(b.contains(a.last()));
        assert(b.contains(b.last()));
        assert(a.contains(b.last()));
        let i = choose|i: int| 0 <= i < b.len() && b[i] == a.last();
        let j = choose|j: int| 0 <= j < a.len() && a[j] == b.last();
        if i < b.len() - 1 && j < a.len() - 1 {
            assert(b[i] < b[b.len() - 1] && a[j] < a[a.len() - 1]);
        }
        assert(a.last() == b.last());
        let pa = a.drop_last();
        let pb = b.drop_last();
        assert forall|x: usize| pa.contains(x) <==> pb.contains(x) by {
            lemma_climbing_words_drop(a, x);
            lemma_climbing_words_drop(b, x);
        }
        lemma_climbing_words_unique(pa, pb);
        assert(a =~= pa.push(a.last()));
        assert(b =~= pb.push(b.last()));
    }
}

proof fn lemma_climbing_words_drop(a: Seq<usize>, x: usize)
    requires
        climbing_words(a),
        a.len() > 0,
    ensures
        a.drop_last().contains(x) <==> a.contains(x) && x != a.last(),
{
    let p = a.drop_last();
    if p.contains(x) {
        let i = choose|i: int| 0 <= i < p.len() && p[i] == x;
        assert(a[i] == x);
        assert(a[i] < a[a.len() - 1]);
    }
    if a.contains(x) && x != a.last() {
        let i = choose|i: int| 0 <= i < a.len() && a[i] == x;
        assert(p[i] == x);
    }
}

/// The elements of a list in ascending order without repetitions.
pub open spec fn distinct(s: Seq<u8>) -> Seq<u8> {
    choose|t: Seq<u8>| climbing(t) && forall|x: u8| t.contains(x) <==> s.contains(x)
}

/// The divisors of `n` in ascending order.
pub open spec fn divisor_list(n: int) -> Seq<usize> {
    choose|d: Seq<usize>| are_divisors(d, n)
}

/// The cores of a list in order without repetitions.
pub open spec fn ordered_cores(s: Seq<CoreCoord>) -> Seq<CoreCoord> {
    choose|t: Seq<CoreCoord>|
        cores::ascending(t) && forall|c: CoreCoord| t.contains(c) <==> s.contains(c)
}

proof fn lemma_ordered(s: Seq<CoreCoord>, t: Seq<CoreCoord>)
    requires
        cores::ascending(t),
        forall|c: CoreCoord| t.contains(c) <==> s.contains(c),
    ensures
        ordered_cores(s) == t,
{
    let o = ordered_cores(s);
    assert(cores::ascending(o) && forall|c: CoreCoord| o.contains(c) <==> s.contains(c));
    cores::lemma_ascending_unique(o, t);
}

proof fn lemma_divisor_list(d: Seq<usize>, n: int)
    requires
        are_divisors(d, n),
    ensures
        divisor_list(n) == d,
{
    let o = divisor_list(n);
    assert(are_divisors(o, n));
    assert forall|x: usize| o.contains(x) <==> d.contains(x) by {
        if o.contains(x) {
            let i = choose|i: int| 0 <= i < o.len() && o[i] == x;
            assert(1 <= o[i] <= n && n % (o[i] as int) == 0);
        }
        if d.contains(x) {
            let i = choose|i: int| 0 <= i < d.len() && d[i] == x;
            assert(1 <= d[i] <= n && n % (d[i] as int) == 0);
        }
    }
    lemma_climbing_words_unique(o, d);
}

/// Every number has a list of divisors.
pub proof fn lemma_divisors_exist(n: int)
    requires
        0 <= n <= usize::MAX,
    ensures
        are_divisors(divisor_list(n), n),
{
    let d = lemma_divisors_upto(n, n);
    assert(are_divisors(d, n));
}

proof fn lemma_divisors_upto(n: int, m: int) -> (d: Seq<usize>)
    requires
        0 <= m <= n <= usize::MAX,
    ensures
        climbing_words(d),
        forall|i: int| 0 <= i < d.len() ==> 1 <= #[trigger] d[i] <= m && n % (d[i] as int) == 0,
        forall|e: usize| 1 <= e <= m && n % (e as int) == 0 ==> #[trigger] d.contains(e),
    decreases m,
{
    if m == 0 {
        Seq::empty()
    } else {
        let before = lemma_divisors_upto(n, m - 1);
        if n % m == 0 {
            let d = before.push(m as usize);
            assert forall|e: usize| 1 <= e <= m && n % (e as int) == 0 implies #[trigger] d.contains(
                e,
            ) by {
                if e < m {
                    assert(before.contains(e));
                    let i = choose|i: int| 0 <= i < before.len() && before[i] == e;
                    assert(d[i] == e);
                } else {
                    assert(d[before.len() as int] == e);
                }
            }
            d
        } else {
            before
        }
    }
}

fn distinct_bytes(s: &Vec<u8>) -> (out: Vec<u8>)
    ensures
        out@ == distinct(s@),
        climbing(out@),
        forall|x: u8| out@.contains(x) <==> s@.contains(x),
{
    let mut out: Vec<u8> = Vec::new();
    let mut v: u16 = 0;
    while v < 256
        invariant
            v <= 256,
            climbing(out@),
            forall|i: int| 0 <= i < out@.len() ==> #[trigger] out@[i] < v && s@.contains(out@[i]),
            forall|x: u8| x < v && s@.contains(x) ==> #[trigger] out@.contains(x),
        decreases 256 - v,
    {
        let x: u8 = v as u8;
        let ghost before = out@;
        let mut found: bool = false;
        for i in 0..s.len()
            invariant
                found == s@.take(i as int).contains(x),
        {
            let ghost prefix = s@.take(i as int);
            assert(s@.take(i + 1) =~= prefix.push(s@[i as int]));
            if s[i] == x {
                found = true;
                assert(s@.take(i + 1)[i as int] == x);
            } else {
                assert(prefix.push(s@[i as int]).contains(x) <==> prefix.contains(x)) by {
                    if prefix.contains(x) {
                        let k = choose|k: int| 0 <= k < prefix.len() && prefix[k] == x;
                        assert(prefix.push(s@[i as int])[k] == x);
                    }
                }
            }
        }
        assert(s@.take(s@.len() as int) =~= s@);
        if found {
            out.push(x);
        }
        assert forall|y: u8| y < v + 1 && s@.contains(y) implies #[trigger] out@.contains(y) by {
            if y < v {
                assert(before.contains(y));
                let k = choose|k: int| 0 <= k < before.len() && before[k] == y;
                assert(out@[k] == y);
            } else {
                assert(y == x);
                assert(out@[before.len() as int] == y);
            }
        }
        v = v + 1;
    }
    proof {
        assert forall|x: u8| out@.contains(x) <==> s@.contains(x) by {
            if out@.contains(x) {
                let i = choose|i: int| 0 <= i < out@.len() && out@[i] == x;
                assert(s@.contains(out@[i]));
            }
        }
        let o = distinct(s@);
        assert(climbing(o) && forall|x: u8| o.contains(x) <==> s@.contains(x));
        lemma_climbing_unique(o, out@);
    }
    out
}

pub open spec fn core_columns(s: Seq<CoreCoord>) -> Seq<u8> {
    s.map_values(|c: CoreCoord| c.x)
}

pub open spec fn core_rows(s: Seq<CoreCoord>) -> Seq<u8> {
    s.map_values(|c: CoreCoord| c.y)
}

/// Whether all cores of column `x` in the given rows exist.
pub open spec fn column_free(available: Seq<CoreCoord>, rows: Seq<u8>, x: u8) -> bool {
    forall|r: int|
        0 <= r < rows.len() ==> available.contains(CoreCoord { x, y: #[trigger] rows[r] })
}

/// The columns among the first `n` whose cores exist in all the given rows.
pub open spec fn free_columns(
    available: Seq<CoreCoord>,
    columns: Seq<u8>,
    rows: Seq<u8>,
    n: int,
) -> Seq<u8>
    decreases n,
{
    if n <= 0 {
        Seq::empty()
    } else if column_free(available, rows, columns[n - 1]) {
        free_columns(available, columns, rows, n - 1).push(columns[n - 1])
    } else {
        free_columns(available, columns, rows, n - 1)
    }
}

proof fn lemma_free_columns_len(
    available: Seq<CoreCoord>,
    columns: Seq<u8>,
    rows: Seq<u8>,
    n: int,
)
    requires
        0 <= n,
    ensures
        free_columns(available, columns, rows, n).len() <= n,
    decreases n,
{
    if n > 0 {
        lemma_free_columns_len(available, columns, rows, n - 1);
    }
}

/// The cores that a grid is looked for on.
pub struct Field {
    pub available: Seq<CoreCoord>,
    pub columns: Seq<u8>,
    pub rows: Seq<u8>,
}

/// The cores of a list, with the columns and the rows in which they lie.
pub open spec fn field(s: Seq<CoreCoord>) -> Field {
    let available = ordered_cores(s);
    Field {
        available,
        columns: distinct(core_columns(available)),
        rows: distinct(core_rows(available)),
    }
}

/// The columns that can be used with rows `a` to `b`.
pub open spec fn usable(f: Field, a: int, b: int) -> Seq<u8> {
    free_columns(f.available, f.columns, f.rows.subrange(a, b), f.columns.len() as int)
}

/// Whether the first `c` usable columns of rows `a` to `b` make a grid.
pub open spec fn grid_placed(t: Task, f: Field, a: int, b: int, c: int) -> bool {
    &&& 0 <= a < b <= f.rows.len()
    &&& 1 <= c <= usable(f, a, b).len()
    &&& t.split_columns || c == 1
    &&& b - a <= t.mt
    &&& (b - a) * c <= f.available.len()
}

/// The share of each core of a grid.
pub open spec fn grid_share(t: Task, a: int, b: int, c: int) -> Share {
    let m = arith::ceil_div(t.mt, b - a);
    let n = arith::ceil_div(t.nt, c);
    Share {
        kind: PlaceKind::Grid,
        per_core_m: m,
        per_core_n: n,
        active: (b - a) * c,
        area: ((b - a) * m) * (c * n),
        padding: 0,
        batches: 0,
        kt: t.kt,
        baseline: None,
    }
}

pub open spec fn grid_valid(t: Task, f: Field, divs: Seq<usize>) -> spec_fn(Choice) -> bool {
    |p: Choice|
        grid_placed(t, f, p.a, p.b, p.c) && suits(
            grid_share(t, p.a, p.b, p.c),
            divs,
            p.h,
            p.w,
            p.d,
        )
}

pub open spec fn grid_score(t: Task, divs: Seq<usize>) -> spec_fn(Choice) -> Score {
    |p: Choice| rating(grid_share(t, p.a, p.b, p.c), p.h, p.w, divs[p.d] as int)
}

/// The plan that a grid choice stands for.
pub open spec fn grid_plan(t: Task, f: Field, divs: Seq<usize>, p: Choice) -> Plan {
    let s = grid_share(t, p.a, p.b, p.c);
    Plan {
        rows: f.rows.subrange(p.a, p.b),
        cols: usable(f, p.a, p.b).take(p.c),
        direct_grid: None,
        batch_groups: 1,
        batches_per_group: t.batch,
        mt: (p.b - p.a) * s.per_core_m,
        kt: t.kt,
        nt: p.c * s.per_core_n,
        per_core_m: s.per_core_m,
        per_core_n: s.per_core_n,
        in0_block_w: divs[p.d] as int,
        out_subblock_h: p.h,
        out_subblock_w: p.w,
    }
}

/// The best plan on a grid of cores that share operands.
pub open spec fn best_grid(t: Task, f: Field, divs: Seq<usize>) -> Option<Plan> {
    match search::best_choice(grid_valid(t, f, divs), grid_score(t, divs)) {
        Some(p) => Some(grid_plan(t, f, divs, p)),
        None => None,
    }
}

fn find_free_columns(available: &Vec<CoreCoord>, columns: &Vec<u8>, rows: &Vec<u8>, a: usize, b: usize) -> (r:
    Vec<u8>)
    requires
        a <= b <= rows@.len(),
    ensures
        r@ == free_columns(
            available@,
            columns@,
            rows@.subrange(a as int, b as int),
            columns@.len() as int,
        ),
{
    let ghost part = rows@.subrange(a as int, b as int);
    let mut out: Vec<u8> = Vec::new();
    for i in 0..columns.len()
        invariant
            a <= b <= rows@.len(),
            part == rows@.subrange(a as int, b as int),
            out@ == free_columns(available@, columns@, part, i as int),
    {
        let x: u8 = columns[i];
        let mut free: bool = true;
        for r in a..b
            invariant
                a <= r <= b <= rows@.len(),
                part == rows@.subrange(a as int, b as int),
                free == (forall|k: int|
                    0 <= k < r - a ==> available@.contains(CoreCoord { x, y: #[trigger] part[k] })),
        {
            let y: u8 = rows[r];
            assert(part[r - a] == y);
            if !cores::contains_core(available.as_slice(), CoreCoord { x, y }) {
                free = false;
            }
        }
        assert(free == column_free(available@, part, x));
        if free {
            out.push(x);
        }
    }
    out
}

fn copy_bytes_part(s: &Vec<u8>, a: usize, b: usize) -> (r: Vec<u8>)
    requires
        a <= b <= s@.len(),
    ensures
        r@ == s@.subrange(a as int, b as int),
{
    crate::bytes::copy_range(s.as_slice(), a, b)
}

proof fn lemma_grid_bounds(t: Task, f: Field, a: int, b: int, c: int)
    requires
        grid_placed(t, f, a, b, c),
        t.nt >= 1,
        t.kt >= 0,
        plan_limits(t.mt, t.kt, t.nt, t.batch, f.available.len() as int),
    ensures
        ({
            let s = grid_share(t, a, b, c);
            &&& share_limits(s)
            &&& 0 <= (b - a) * s.per_core_m <= usize::MAX
            &&& 0 <= c * s.per_core_n <= usize::MAX
            &&& 0 <= s.area <= usize::MAX
        }),
{
    let s = grid_share(t, a, b, c);
    let r = b - a;
    let cores = f.available.len() as int;
    let m = s.per_core_m;
    let n = s.per_core_n;
    arith::lemma_ceil_div(t.mt, r);
    arith::lemma_ceil_div(t.nt, c);
    arith::lemma_round_up(t.mt, r);
    arith::lemma_round_up(t.nt, c);
    let mm = r * m;
    let nn = c * n;
    assert(mm == m * r) by (nonlinear_arith)
        requires
            mm == r * m,
    ;
    assert(nn == n * c) by (nonlinear_arith)
        requires
            nn == c * n,
    ;
    assert(1 <= c <= cores) by (nonlinear_arith)
        requires
            r * c <= cores,
            r >= 1,
            c >= 1,
    ;
    assert(nn < t.nt + cores);
    assert(1 <= cores);
    lemma_area(t.mt, t.nt, mm, nn, cores, 1);
    let mt = t.mt;
    let nt = t.nt;
    assert(m * n <= mt * nt) by (nonlinear_arith)
        requires
            0 <= m <= mt,
            0 <= n <= nt,
    ;
    assert(0 * t.kt * m * n == 0) by (nonlinear_arith);
    assert(r * c >= 0) by (nonlinear_arith)
        requires
            r >= 1,
            c >= 1,
    ;
}

/// Plans on a grid of cores that share operands; the choice with the best score is taken.
fn plan_grid_matmul(
    mt_base: usize,
    kt: usize,
    nt_base: usize,
    available: &Vec<CoreCoord>,
    columns: &Vec<u8>,
    rows: &Vec<u8>,
    kt_divs: &Vec<usize>,
    batch_count: usize,
    allow_column_split: bool,
) -> (r: Option<MatmulPlan>)
    requires
        nt_base >= 1,
        rows@.len() <= 256,
        columns@.len() <= 256,
        plan_limits(
            mt_base as int,
            kt as int,
            nt_base as int,
            batch_count as int,
            available@.len() as int,
        ),
        forall|i: int| 0 <= i < kt_divs@.len() ==> #[trigger] kt_divs@[i] >= 1,
    ensures
        ({
            let t = Task {
                mt: mt_base as int,
                kt: kt as int,
                nt: nt_base as int,
                batch: batch_count as int,
                split_columns: allow_column_split,
            };
            let f = Field { available: available@, columns: columns@, rows: rows@ };
            match r {
                Some(plan) => best_grid(t, f, kt_divs@) == Some(plan@),
                None => best_grid(t, f, kt_divs@) is None,
            }
        }),
{
    let ghost t = Task {
        mt: mt_base as int,
        kt: kt as int,
        nt: nt_base as int,
        batch: batch_count as int,
        split_columns: allow_column_split,
    };
    let ghost f = Field { available: available@, columns: columns@, rows: rows@ };
    let ghost valid = grid_valid(t, f, kt_divs@);
    let ghost score = grid_score(t, kt_divs@);
    let height: usize = rows.len();
    let mut best: Option<Found> = None;
    for a in 0..height
        invariant
            height == rows@.len() <= 256,
            columns@.len() <= 256,
            nt_base >= 1,
            t == (Task {
                mt: mt_base as int,
                kt: kt as int,
                nt: nt_base as int,
                batch: batch_count as int,
                split_columns: allow_column_split,
            }),
            f == (Field { available: available@, columns: columns@, rows: rows@ }),
            plan_limits(t.mt, t.kt, t.nt, t.batch, available@.len() as int),
            forall|i: int| 0 <= i < kt_divs@.len() ==> #[trigger] kt_divs@[i] >= 1,
            valid == grid_valid(t, f, kt_divs@),
            score == grid_score(t, kt_divs@),
            search::best_before(
                valid,
                score,
                found_choice(best),
                (Choice { a: a as int, b: 0, c: 0, h: 0, w: 0, d: 0 }),
            ),
            scored(best, score),
    {
        let ghost at = Choice { a: a as int, b: 0, c: 0, h: 0, w: 0, d: 0 };
        proof {
            search::lemma_skip(valid, score, found_choice(best), at, Choice { b: a + 1, ..at });
        }
        let mut b: usize = a + 1;
        while b <= height
            invariant
                a < height,
                a + 1 <= b <= height + 1,
                height == rows@.len() <= 256,
                columns@.len() <= 256,
                nt_base >= 1,
                t == (Task {
                    mt: mt_base as int,
                    kt: kt as int,
                    nt: nt_base as int,
                    batch: batch_count as int,
                    split_columns: allow_column_split,
                }),
                f == (Field { available: available@, columns: columns@, rows: rows@ }),
                plan_limits(t.mt, t.kt, t.nt, t.batch, available@.len() as int),
                forall|i: int| 0 <= i < kt_divs@.len() ==> #[trigger] kt_divs@[i] >= 1,
                valid == grid_valid(t, f, kt_divs@),
                score == grid_score(t, kt_divs@),
                at == (Choice { a: a as int, b: 0, c: 0, h: 0, w: 0, d: 0 }),
                search::best_before(
                    valid,
                    score,
                    found_choice(best),
                    (Choice { b: b as int, ..at }),
                ),
                scored(best, score),
            decreases height + 1 - b,
        {
            let cols = find_free_columns(available, columns, rows, a, b);
            proof {
                lemma_free_columns_len(
                    available@,
                    columns@,
                    rows@.subrange(a as int, b as int),
                    columns@.len() as int,
                );
                assert(cols@ == usable(f, a as int, b as int));
            }
            let nr: usize = b - a;
            let max_nc: usize = if allow_column_split {
                cols.len()
            } else {
                arith::min_usize(cols.len(), 1)
            };
            let ghost row = Choice { b: b as int, ..at };
            proof {
                search::lemma_skip(valid, score, found_choice(best), row, Choice { c: 1, ..row });
            }
            let mut c: usize = 1;
            while c <= max_nc
                invariant
                    a < b <= height,
                    nr == b - a,
                    height == rows@.len() <= 256,
                    cols@.len() <= 256,
                    cols@ == usable(f, a as int, b as int),
                    max_nc == (if allow_column_split {
                        cols@.len() as int
                    } else {
                        arith::min2(cols@.len() as int, 1)
                    }),
                    1 <= c <= max_nc + 1,
                    nt_base >= 1,
                    t == (Task {
                        mt: mt_base as int,
                        kt: kt as int,
                        nt: nt_base as int,
                        batch: batch_count as int,
                        split_columns: allow_column_split,
                    }),
                    f == (Field { available: available@, columns: columns@, rows: rows@ }),
                    plan_limits(t.mt, t.kt, t.nt, t.batch, available@.len() as int),
                    forall|i: int| 0 <= i < kt_divs@.len() ==> #[trigger] kt_divs@[i] >= 1,
                    valid == grid_valid(t, f, kt_divs@),
                    score == grid_score(t, kt_divs@),
                    row == (Choice { a: a as int, b: b as int, c: 0, h: 0, w: 0, d: 0 }),
                    search::best_before(
                        valid,
                        score,
                        found_choice(best),
                        (Choice { c: c as int, ..row }),
                    ),
                    scored(best, score),
                decreases max_nc + 1 - c,
            {
                assert(nr * c <= 65536) by (nonlinear_arith)
                    requires
                        0 <= nr <= 256,
                        0 <= c <= 256,
                ;
                if nr <= mt_base && nr * c <= available.len() {
                    proof {
                        lemma_grid_bounds(t, f, a as int, b as int, c as int);
                    }
                    let m: usize = arith::div_ceil(mt_base, nr);
                    let n: usize = arith::div_ceil(nt_base, c);
                    let place = Place {
                        kind: PlaceKind::Grid,
                        per_core_m: m,
                        per_core_n: n,
                        active: nr * c,
                        area: (nr * m) * (c * n),
                        padding: 0,
                        batches: 0,
                        kt,
                        baseline: None,
                    };
                    assert(place@ == grid_share(t, a as int, b as int, c as int));
                    best =
                    search_place(&place, kt_divs, a, b, c, best, Ghost(valid), Ghost(score));
                } else {
                    proof {
                        let from = Choice { c: c as int, ..row };
                        let to = Choice { c: c + 1, ..row };
                        assert forall|q: Choice| #[trigger]
                            valid(q) && search::earlier(q, to) implies search::earlier(q, from) by {
                            if q.a == a && q.b == b && q.c == c {
                                assert(grid_placed(t, f, q.a, q.b, q.c));
                            }
                        }
                        search::lemma_skip(valid, score, found_choice(best), from, to);
                    }
                }
                c = c + 1;
            }
            proof {
                let from = Choice { c: max_nc + 1, ..row };
                let to = Choice { b: b + 1, ..at };
                assert forall|q: Choice| #[trigger] valid(q) && search::earlier(q, to) implies
                    search::earlier(q, from) by {
                    if q.a == a && q.b == b {
                        assert(grid_placed(t, f, q.a, q.b, q.c));
                    }
                }
                search::lemma_skip(valid, score, found_choice(best), from, to);
            }
            b = b + 1;
        }
        proof {
            let from = Choice { b: height + 1, ..at };
            let to = Choice { a: a + 1, ..at };
            assert forall|q: Choice| #[trigger] valid(q) && search::earlier(q, to) implies search::earlier(
                q,
                from,
            ) by {
                if q.a == a {
                    assert(grid_placed(t, f, q.a, q.b, q.c));
                }
            }
            search::lemma_skip(valid, score, found_choice(best), from, to);
        }
    }
    proof {
        search::lemma_done(
            valid,
            score,
            found_choice(best),
            Choice { a: height as int, b: 0, c: 0, h: 0, w: 0, d: 0 },
        );
    }
    match best {
        None => None,
        Some(p) => {
            assert(valid(p@));
            proof {
                lemma_grid_bounds(t, f, p.a as int, p.b as int, p.c as int);
            }
            let nr: usize = p.b - p.a;
            let cols = find_free_columns(available, columns, rows, p.a, p.b);
            let m: usize = arith::div_ceil(mt_base, nr);
            let n: usize = arith::div_ceil(nt_base, p.c);
            assert(cols@.subrange(0, p.c as int) =~= cols@.take(p.c as int));
            Some(
                MatmulPlan {
                    rows: copy_bytes_part(rows, p.a, p.b),
                    cols: copy_bytes_part(&cols, 0, p.c),
                    direct_grid: None,
                    batch_groups: 1,
                    batches_per_group: batch_count,
                    mt: nr * m,
                    kt,
                    nt: p.c * n,
                    per_core_m: m,
                    per_core_n: n,
                    in0_block_w: kt_divs[p.d],
                    out_subblock_h: p.h,
                    out_subblock_w: p.w,
                },
            )
        },
    }
}

/// Tile multiplications of one core under a plan, at most the largest word.
pub open spec fn plan_work_of(p: Plan) -> int {
    let max = usize::MAX as int;
    let blocks = arith::min2(p.batches_per_group * (p.kt / p.in0_block_w), max);
    arith::min2(arith::min2(blocks * p.per_core_m, max) * p.per_core_n, max)
}

pub fn plan_work(plan: &MatmulPlan) -> (r: usize)
    requires
        plan.in0_block_w >= 1,
    ensures
        r == plan_work_of(plan@),
{
    let blocks: usize = arith::saturating_mul_usize(
        plan.batches_per_group,
        plan.kt / plan.in0_block_w,
    );
    arith::saturating_mul_usize(
        arith::saturating_mul_usize(blocks, plan.per_core_m),
        plan.per_core_n,
    )
}

/// The tiles that a multiplication is planned in.
pub open spec fn matmul_task(m: int, k: int, n: int, batch: int, split_columns: bool) -> Task {
    Task {
        mt: arith::ceil_div(m, 32),
        kt: arith::ceil_div(k, 32),
        nt: arith::max2(arith::ceil_div(n, 32), 1),
        batch,
        split_columns,
    }
}

/// The plan without groups of batches: cores that share operands are preferred,
/// unless the output is a single row of tiles.
pub open spec fn base_plan(t: Task, f: Field) -> Option<Plan> {
    let divs = divisor_list(t.kt);
    let direct = best_direct(t, f.available, divs, 1, 1, None);
    let grid = best_grid(t, f, divs);
    if t.mt == 1 {
        if direct is Some {
            direct
        } else {
            grid
        }
    } else if grid is Some {
        grid
    } else {
        direct
    }
}

/// The plan for a multiplication: batches are dealt out over groups of cores
/// where that makes less work for each core.
pub open spec fn best_plan(t: Task, f: Field) -> Option<Plan> {
    match base_plan(t, f) {
        None => None,
        Some(p) => {
            let groups = arith::min2(t.batch, f.available.len() as int);
            let batched = best_direct(
                t,
                f.available,
                divisor_list(t.kt),
                2,
                groups,
                Some(plan_work_of(p)),
            );
            if batched is Some {
                batched
            } else {
                Some(p)
            }
        },
    }
}

/// Why a multiplication cannot be planned.
pub open spec fn plan_refusal(m: int, k: int, n: int, t: Task, f: Field) -> Option<error::Refusal> {
    if f.available.len() == 0 {
        Some(error::invalid("no worker cores are available"@))
    } else if best_plan(t, f) is None {
        Some(
            error::invalid(
                "no valid matmul plan for M="@ + text::dec(m) + " K="@ + text::dec(k) + " N="@
                    + text::dec(n) + " on "@ + text::dec(f.available.len() as int) + " cores"@,
            ),
        )
    } else {
        None
    }
}

/// Plans a multiplication of `m` by `k` with `k` by `n` elements.
pub fn plan_matmul(
    m: usize,
    k: usize,
    n: usize,
    batch_count: usize,
    cores: &[CoreCoord],
    allow_column_split: bool,
) -> (r: Result<MatmulPlan, Error>)
    requires
        ({
            let t = matmul_task(m as int, k as int, n as int, batch_count as int, allow_column_split);
            plan_limits(t.mt, t.kt, t.nt, t.batch, cores@.len() as int)
        }),
    ensures
        ({
            let t = matmul_task(m as int, k as int, n as int, batch_count as int, allow_column_split);
            let f = field(cores@);
            match r {
                Ok(plan) => {
                    &&& plan_refusal(m as int, k as int, n as int, t, f) is None
                    &&& best_plan(t, f) == Some(plan@)
                    &&& crate::kernels::matmul::program::sound(plan@)
                },
                Err(e) => plan_refusal(m as int, k as int, n as int, t, f) == Some(e@),
            }
        }),
{
    let ghost t = matmul_task(m as int, k as int, n as int, batch_count as int, allow_column_split);
    let mt: usize = arith::div_ceil(m, 32);
    let kt: usize = arith::div_ceil(k, 32);
    let nt: usize = arith::max_usize(arith::div_ceil(n, 32), 1);
    let ordered = cores::sort_dedup_cores(cores);
    let ghost f = field(cores@);
    let total: usize = ordered.len();
    proof {
        lemma_ordered(cores@, ordered@);
    }
    if total == 0 {
        return Err(error::invalid_text("no worker cores are available"));
    }
    proof {
        lemma_fewer_cores(t, cores@.len() as int, total as int);
    }
    let mut xs: Vec<u8> = Vec::new();
    let mut ys: Vec<u8> = Vec::new();
    for i in 0..total
        invariant
            total == ordered@.len(),
            xs@ == core_columns(ordered@).take(i as int),
            ys@ == core_rows(ordered@).take(i as int),
    {
        xs.push(ordered[i].x);
        ys.push(ordered[i].y);
        assert(xs@ =~= core_columns(ordered@).take(i + 1));
        assert(ys@ =~= core_rows(ordered@).take(i + 1));
    }
    assert(xs@ =~= core_columns(ordered@));
    assert(ys@ =~= core_rows(ordered@));
    let columns = distinct_bytes(&xs);
    let rows = distinct_bytes(&ys);
    proof {
        lemma_climbing_len(columns@);
        lemma_climbing_len(rows@);
    }
    let divs = divisors(kt);
    proof {
        lemma_divisor_list(divs@, kt as int);
    }
    assert(f == (Field { available: ordered@, columns: columns@, rows: rows@ }));
    let grid = plan_grid_matmul(
        mt,
        kt,
        nt,
        &ordered,
        &columns,
        &rows,
        &divs,
        batch_count,
        allow_column_split,
    );
    let direct = plan_direct_matmul(
        mt,
        kt,
        nt,
        ordered.as_slice(),
        &divs,
        batch_count,
        allow_column_split,
        1,
        1,
        None,
    );
    let candidate: Option<MatmulPlan> = if mt == 1 {
        if direct.is_some() {
            direct
        } else {
            grid
        }
    } else if grid.is_some() {
        grid
    } else {
        direct
    };
    match candidate {
        None => Err(
            error::invalid_input(
                text::cat2(
                    text::cat7(
                        "no valid matmul plan for M=",
                        text::decimal_usize(m).as_str(),
                        " K=",
                        text::decimal_usize(k).as_str(),
                        " N=",
                        text::decimal_usize(n).as_str(),
                        " on ",
                    ).concat(text::decimal_usize(total).as_str()).as_str(),
                    " cores",
                ),
            ),
        ),
        Some(plan) => {
            proof {
                lemma_plan_block(t, f, plan@);
            }
            let work: usize = plan_work(&plan);
            let batched = plan_direct_matmul(
                mt,
                kt,
                nt,
                ordered.as_slice(),
                &divs,
                batch_count,
                allow_column_split,
                2,
                arith::min_usize(batch_count, total),
                Some(work),
            );
            let chosen = match batched {
                Some(better) => better,
                None => plan,
            };
            proof {
                crate::kernels::matmul::request::lemma_best_plan_sound(t, cores@, chosen@);
            }
            Ok(chosen)
        },
    }
}

proof fn lemma_fewer_cores(t: Task, many: int, few: int)
    requires
        plan_limits(t.mt, t.kt, t.nt, t.batch, many),
        0 <= few <= many,
        t.mt >= 0,
        t.nt >= 0,
    ensures
        plan_limits(t.mt, t.kt, t.nt, t.batch, few),
{
    let x = 4 * t.mt * (t.nt + few);
    let y = 4 * t.mt * (t.nt + many);
    let mt = t.mt;
    let nt = t.nt;
    assert(0 <= x <= y) by (nonlinear_arith)
        requires
            0 <= few <= many,
            mt >= 0,
            nt >= 0,
            x == 4 * mt * (nt + few),
            y == 4 * mt * (nt + many),
    ;
    assert(x * (few + 1) <= y * (many + 1)) by (nonlinear_arith)
        requires
            0 <= x <= y,
            0 <= few <= many,
    ;
}

proof fn lemma_climbing_len(s: Seq<u8>)
    requires
        climbing(s),
    ensures
        s.len() <= 256,
{
    if s.len() > 256 {
        lemma_climbing_at(s, 256);
    }
}

proof fn lemma_climbing_at(s: Seq<u8>, i: int)
    requires
        climbing(s),
        0 <= i < s.len(),
    ensures
        s[i] >= i,
    decreases i,
{
    if i > 0 {
        lemma_climbing_at(s, i - 1);
        assert(s[i - 1] < s[i]);
    }
}

/// The block width of a plan divides the inner dimension.
pub proof fn lemma_plan_block(t: Task, f: Field, p: Plan)
    requires
        base_plan(t, f) == Some(p),
        0 <= t.kt <= usize::MAX,
    ensures
        1 <= p.in0_block_w <= t.kt,
        t.kt % p.in0_block_w == 0,
{
    let divs = divisor_list(t.kt);
    lemma_divisors_exist(t.kt);
    let gv = grid_valid(t, f, divs);
    let gs = grid_score(t, divs);
    let dv = direct_valid(t, f.available.len() as int, divs, 1, 1, None);
    let ds = direct_score(t, divs, None);
    let g = search::best_choice(gv, gs);
    let d = search::best_choice(dv, ds);
    if g is Some {
        assert(search::is_best(gv, gs, g->0));
        assert(gv(g->0));
        assert(1 <= divs[(g->0).d] <= t.kt);
    }
    if d is Some {
        assert(search::is_best(dv, ds, d->0));
        assert(dv(d->0));
        assert(1 <= divs[(d->0).d] <= t.kt);
    }
}

} // verus!
