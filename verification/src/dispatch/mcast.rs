//! Covering a set of cores with multicast rectangles.

use vstd::prelude::*;
use crate::cores;
use crate::hw::CoreCoord;

verus! {

/// Whether a core lies in the rectangle with the given corners.
pub open spec fn in_rect(r: (CoreCoord, CoreCoord), c: CoreCoord) -> bool {
    r.0.x <= c.x <= r.1.x && r.0.y <= c.y <= r.1.y
}

/// The rectangle that is split off from a set of cores: it starts at the first
/// core, is as wide as the run of cores to the right of it, and as high as full
/// rows of that width follow.
pub open spec fn next_rect(remaining: Set<CoreCoord>, r: (CoreCoord, CoreCoord)) -> bool {
    let (s, e) = r;
    &&& remaining.contains(s)
    &&& forall|c: CoreCoord| #[trigger] remaining.contains(c) ==> !c.before(s)
    &&& s.x <= e.x < 255
    &&& s.y <= e.y < 255
    &&& forall|c: CoreCoord| in_rect(r, c) ==> #[trigger] remaining.contains(c)
    &&& !remaining.contains(CoreCoord { x: (e.x + 1) as u8, y: s.y })
    &&& exists|x: u8|
        s.x <= x <= e.x && !#[trigger] remaining.contains(CoreCoord { x, y: (e.y + 1) as u8 })
}

/// What is left after a rectangle was split off.
pub open spec fn without_rect(remaining: Set<CoreCoord>, r: (CoreCoord, CoreCoord)) -> Set<
    CoreCoord,
> {
    Set::new(|c: CoreCoord| remaining.contains(c) && !in_rect(r, c))
}

/// Whether splitting off `rects` one after the other takes `remaining` to `left`.
pub open spec fn peels(
    remaining: Set<CoreCoord>,
    rects: Seq<(CoreCoord, CoreCoord)>,
    left: Set<CoreCoord>,
) -> bool
    decreases rects.len(),
{
    if rects.len() == 0 {
        remaining =~= left
    } else {
        &&& next_rect(remaining, rects[0])
        &&& peels(without_rect(remaining, rects[0]), rects.drop_first(), left)
    }
}

proof fn lemma_peels_push(
    remaining: Set<CoreCoord>,
    rects: Seq<(CoreCoord, CoreCoord)>,
    left: Set<CoreCoord>,
    r: (CoreCoord, CoreCoord),
)
    requires
        peels(remaining, rects, left),
        next_rect(left, r),
    ensures
        peels(remaining, rects.push(r), without_rect(left, r)),
    decreases rects.len(),
{
    if rects.len() == 0 {
        assert(rects.push(r).drop_first() =~= Seq::empty());
        assert(remaining == left);
        assert(peels(without_rect(left, r), Seq::empty(), without_rect(left, r)));
        assert(rects.push(r)[0] == r);
    } else {
        lemma_peels_push(without_rect(remaining, rects[0]), rects.drop_first(), left, r);
        assert(rects.push(r).drop_first() =~= rects.drop_first().push(r));
    }
}

/// The rectangles split off from a set hold its cores, each exactly once, and no others.
pub proof fn lemma_peels_partition(
    remaining: Set<CoreCoord>,
    rects: Seq<(CoreCoord, CoreCoord)>,
)
    requires
        peels(remaining, rects, Set::empty()),
    ensures
        forall|c: CoreCoord|
            #[trigger] remaining.contains(c) <==> exists|i: int|
                0 <= i < rects.len() && #[trigger] in_rect(rects[i], c),
        forall|i: int, j: int, c: CoreCoord|
            0 <= i < j < rects.len() && #[trigger] in_rect(rects[i], c) ==> !#[trigger] in_rect(
                rects[j],
                c,
            ),
    decreases rects.len(),
{
    if rects.len() > 0 {
        let rest = rects.drop_first();
        let rem = without_rect(remaining, rects[0]);
        lemma_peels_partition(rem, rest);
        assert forall|c: CoreCoord| #[trigger] remaining.contains(c) implies exists|i: int|
            0 <= i < rects.len() && #[trigger] in_rect(rects[i], c) by {
            if !in_rect(rects[0], c) {
                assert(rem.contains(c));
                let i = choose|i: int| 0 <= i < rest.len() && #[trigger] in_rect(rest[i], c);
                assert(in_rect(rects[i + 1], c));
            }
        }
        assert forall|c: CoreCoord|
            (exists|i: int| 0 <= i < rects.len() && #[trigger] in_rect(rects[i], c)) implies
            #[trigger] remaining.contains(c) by {
            let i = choose|i: int| 0 <= i < rects.len() && #[trigger] in_rect(rects[i], c);
            if i > 0 {
                assert(in_rect(rest[i - 1], c));
                assert(rem.contains(c));
            }
        }
        assert forall|i: int, j: int, c: CoreCoord|
            0 <= i < j < rects.len() && #[trigger] in_rect(rects[i], c) implies !#[trigger] in_rect(
            rects[j],
            c,
        ) by {
            if in_rect(rects[j], c) {
                assert(in_rect(rest[j - 1], c));
                if i == 0 {
                    assert(rem.contains(c));
                } else {
                    assert(in_rect(rest[i - 1], c));
                }
            }
        }
    }
}

proof fn lemma_corners(
    remaining: Set<CoreCoord>,
    rects: Seq<(CoreCoord, CoreCoord)>,
    left: Set<CoreCoord>,
    i: int,
)
    requires
        peels(remaining, rects, left),
        0 <= i < rects.len(),
    ensures
        rects[i].0.x <= rects[i].1.x < 255,
        rects[i].0.y <= rects[i].1.y < 255,
        forall|c: CoreCoord| in_rect(rects[i], c) ==> #[trigger] remaining.contains(c),
    decreases rects.len(),
{
    if i > 0 {
        let rest = without_rect(remaining, rects[0]);
        lemma_corners(rest, rects.drop_first(), left, i - 1);
        assert(rects.drop_first()[i - 1] == rects[i]);
        assert forall|c: CoreCoord| in_rect(rects[i], c) implies #[trigger] remaining.contains(
            c,
        ) by {
            assert(rest.contains(c));
        }
    }
}

/// A rectangle of cores holds no more cores than there are.
pub proof fn lemma_rect_fits(
    list: Seq<CoreCoord>,
    rects: Seq<(CoreCoord, CoreCoord)>,
    i: int,
)
    requires
        peels(list.to_set(), rects, Set::empty()),
        0 <= i < rects.len(),
    ensures
        rects[i].0.x <= rects[i].1.x,
        rects[i].0.y <= rects[i].1.y,
        (rects[i].1.x - rects[i].0.x + 1) * (rects[i].1.y - rects[i].0.y + 1) <= list.len(),
{
    let r = rects[i];
    lemma_corners(list.to_set(), rects, Set::empty(), i);
    let w = r.1.x - r.0.x + 1;
    let h = r.1.y - r.0.y + 1;
    let n = w * h;
    assert(n >= 0) by (nonlinear_arith)
        requires
            n == w * h,
            w >= 0,
            h >= 0,
    ;
    let all = Seq::new(
        n as nat,
        |k: int| CoreCoord { x: (r.0.x + k % w) as u8, y: (r.0.y + k / w) as u8 },
    );
    assert forall|k: int| 0 <= k < n implies 0 <= #[trigger] (k % w) < w && 0 <= k / w < h && k == w
        * (k / w) + k % w by {
        vstd::arithmetic::div_mod::lemma_fundamental_div_mod(k, w);
        assert(0 <= k / w < h) by (nonlinear_arith)
            requires
                k == w * (k / w) + k % w,
                0 <= k % w < w,
                0 <= k < w * h,
        ;
    }
    assert(all.no_duplicates()) by {
        assert forall|a: int, b: int| 0 <= a < n && 0 <= b < n && a != b implies all[a]
            != all[b] by {
            assert(0 <= a % w < w && 0 <= b % w < w);
            if all[a] == all[b] {
                assert(a % w == b % w);
                assert(a / w == b / w);
            }
        }
    }
    all.unique_seq_to_set();
    assert(all.to_set().subset_of(list.to_set())) by {
        assert forall|c: CoreCoord| all.to_set().contains(c) implies list.to_set().contains(c) by {
            let k = choose|k: int| 0 <= k < all.len() && all[k] == c;
            assert(0 <= k % w < w);
            assert(in_rect(r, c));
        }
    }
    list.lemma_cardinality_of_set();
    vstd::seq_lib::seq_to_set_is_finite(list);
    vstd::set_lib::lemma_len_subset(all.to_set(), list.to_set());
}

fn first_core(cores: &Vec<CoreCoord>) -> (r: CoreCoord)
    requires
        cores@.len() > 0,
    ensures
        cores@.contains(r),
        forall|c: CoreCoord| #[trigger] cores@.contains(c) ==> !c.before(r),
{
    let mut best: CoreCoord = cores[0];
    assert(cores@[0] == best);
    for i in 1..cores.len()
        invariant
            cores@.contains(best),
            forall|j: int| 0 <= j < i ==> !(#[trigger] cores@[j]).before(best),
    {
        if cores[i].is_before(best) {
            best = cores[i];
            assert(cores@[i as int] == best);
        }
    }
    best
}

/// Packs a set of cores into non-overlapping axis-aligned rectangles, so that
/// one multicast write reaches each rectangle.
pub fn mcast_rects(cores_used: &[CoreCoord]) -> (rects: Vec<(CoreCoord, CoreCoord)>)
    requires
        forall|i: int| 0 <= i < cores_used@.len() ==> (#[trigger] cores_used@[i]).x < 255 && cores_used@[i].y < 255,
    ensures
        peels(cores_used@.to_set(), rects@, Set::empty()),
{
    let mut remaining: Vec<CoreCoord> = Vec::new();
    let mut rects: Vec<(CoreCoord, CoreCoord)> = Vec::new();
    for i in 0..cores_used.len()
        invariant
            remaining@ == cores_used@.take(i as int),
    {
        remaining.push(cores_used[i]);
        assert(remaining@ =~= cores_used@.take(i + 1));
    }
    let ghost all = cores_used@.to_set();
    assert(cores_used@.take(cores_used@.len() as int) =~= cores_used@);
    while remaining.len() > 0
        invariant
            peels(all, rects@, remaining@.to_set()),
            forall|i: int|
                0 <= i < remaining@.len() ==> (#[trigger] remaining@[i]).x < 255 && remaining@[i].y
                    < 255,
        decreases remaining@.len(),
    {
        let ghost set = remaining@.to_set();
        let start: CoreCoord = first_core(&remaining);
        let mut x1: u8 = start.x;
        let mut more: bool = cores::contains_core(remaining.as_slice(), CoreCoord { x: x1 + 1, y: start.y });
        while more
            invariant
                start.x <= x1 < 255,
                more == remaining@.contains(CoreCoord { x: (x1 + 1) as u8, y: start.y }),
                remaining@.contains(start),
                forall|i: int|
                    0 <= i < remaining@.len() ==> (#[trigger] remaining@[i]).x < 255
                        && remaining@[i].y < 255,
                forall|x: u8|
                    start.x <= x <= x1 ==> #[trigger] remaining@.contains(
                        CoreCoord { x, y: start.y },
                    ),
            decreases 255 - x1,
        {
            x1 = x1 + 1;
            more = cores::contains_core(remaining.as_slice(), CoreCoord { x: x1 + 1, y: start.y });
        }
        let mut y1: u8 = start.y;
        let mut growing: bool = true;
        let ghost mut gap: u8 = start.x;
        while growing
            invariant
                start.x <= x1 < 255,
                start.y <= y1 < 255,
                remaining@.contains(start),
                forall|i: int|
                    0 <= i < remaining@.len() ==> (#[trigger] remaining@[i]).x < 255
                        && remaining@[i].y < 255,
                forall|x: u8, y: u8|
                    start.x <= x <= x1 && start.y <= y <= y1 ==> #[trigger] remaining@.contains(
                        CoreCoord { x, y },
                    ),
                !growing ==> start.x <= gap <= x1 && !remaining@.contains(
                    CoreCoord { x: gap, y: (y1 + 1) as u8 },
                ),
            decreases 255 - y1, growing as int,
        {
            let next_y: u8 = y1 + 1;
            let mut full: bool = true;
            let mut x: u8 = start.x;
            while full && x <= x1
                invariant
                    start.x <= x <= x1 + 1,
                    x1 < 255,
                    full ==> forall|k: u8|
                        start.x <= k < x ==> #[trigger] remaining@.contains(
                            CoreCoord { x: k, y: next_y },
                        ),
                    !full ==> start.x <= gap <= x1 && !remaining@.contains(
                        CoreCoord { x: gap, y: next_y },
                    ),
                decreases x1 + 1 - x, full as int,
            {
                if cores::contains_core(remaining.as_slice(), CoreCoord { x, y: next_y }) {
                    x = x + 1;
                } else {
                    full = false;
                    proof {
                        gap = x;
                    }
                }
            }
            if full {
                assert(remaining@.contains(CoreCoord { x: start.x, y: next_y }));
                y1 = next_y;
            } else {
                growing = false;
            }
        }
        let end = CoreCoord { x: x1, y: y1 };
        let rect = (start, end);
        proof {
            assert forall|c: CoreCoord| in_rect(rect, c) implies #[trigger] set.contains(c) by {
                assert(remaining@.contains(CoreCoord { x: c.x, y: c.y }));
                assert(CoreCoord { x: c.x, y: c.y } == c);
            }
            assert(!set.contains(CoreCoord { x: gap, y: (y1 + 1) as u8 }));
            assert(next_rect(set, rect));
        }
        let mut kept: Vec<CoreCoord> = Vec::new();
        for i in 0..remaining.len()
            invariant
                kept@.len() <= i,
                remaining@.len() > 0 && in_rect(rect, start),
                forall|c: CoreCoord| #[trigger]
                    kept@.contains(c) <==> remaining@.take(i as int).contains(c) && !in_rect(
                        rect,
                        c,
                    ),
                forall|k: int|
                    0 <= k < kept@.len() ==> (#[trigger] kept@[k]).x < 255 && kept@[k].y < 255,
                forall|k: int|
                    0 <= k < remaining@.len() ==> (#[trigger] remaining@[k]).x < 255
                        && remaining@[k].y < 255,
                remaining@.take(i as int).contains(start) ==> kept@.len() < i,
                rect == (start, end),
        {
            let c: CoreCoord = remaining[i];
            let ghost before = kept@;
            let ghost prefix = remaining@.take(i as int);
            assert(remaining@.take(i + 1) =~= prefix.push(c));
            if !(start.x <= c.x && c.x <= end.x && start.y <= c.y && c.y <= end.y) {
                kept.push(c);
                assert forall|d: CoreCoord| #[trigger] kept@.contains(d) <==> remaining@.take(
                    i + 1,
                ).contains(d) && !in_rect(rect, d) by {
                    cores::lemma_push_contains(before, c, d);
                    cores::lemma_push_contains(prefix, c, d);
                }
                proof {
                    cores::lemma_push_contains(prefix, c, start);
                }
            } else {
                assert forall|d: CoreCoord| #[trigger] kept@.contains(d) <==> remaining@.take(
                    i + 1,
                ).contains(d) && !in_rect(rect, d) by {
                    cores::lemma_push_contains(prefix, c, d);
                }
            }
        }
        assert(remaining@.take(remaining@.len() as int) =~= remaining@);
        proof {
            assert(kept@.to_set() =~= without_rect(set, rect)) by {
                assert forall|c: CoreCoord| #[trigger] kept@.to_set().contains(c)
                    <==> without_rect(set, rect).contains(c) by {
                    assert(kept@.contains(c) <==> remaining@.contains(c) && !in_rect(rect, c));
                }
            }
            lemma_peels_push(all, rects@, set, rect);
        }
        rects.push(rect);
        remaining = kept;
    }
    assert(remaining@.to_set() =~= Set::empty());
    rects
}

} // verus!
