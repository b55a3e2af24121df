//! Lists and sets of cores.

use vstd::prelude::*;
use crate::hw::CoreCoord;

verus! {

/// In order, repetitions allowed.
pub open spec fn sorted(s: Seq<CoreCoord>) -> bool {
    forall|i: int, j: int| 0 <= i < j < s.len() ==> !(#[trigger] s[j]).before(#[trigger] s[i])
}

/// In order without repetitions.
pub open spec fn ascending(s: Seq<CoreCoord>) -> bool {
    forall|i: int, j: int| 0 <= i < j < s.len() ==> (#[trigger] s[i]).before(#[trigger] s[j])
}

/// Two lists in order, without repetitions, of the same cores are the same.
pub proof fn lemma_ascending_unique(a: Seq<CoreCoord>, b: Seq<CoreCoord>)
    requires
        ascending(a),
        ascending(b),
        forall|c: CoreCoord| a.contains(c) <==> b.contains(c),
    ensures
        a == b,
    decreases a.len(),
{
    if a.len() == 0 {
        if b.len() > 0 {
            assert(b.contains(b[0]));
        }
        assert(a =~= b);
    } else {
        assert(a.contains(a.last()));
        assert(b.contains(a.last()));
        assert(b.contains(b.last()));
        assert(a.contains(b.last()));
        let i = choose|i: int| 0 <= i < b.len() && b[i] == a.last();
        let j = choose|j: int| 0 <= j < a.len() && a[j] == b.last();
        if i < b.len() - 1 && j < a.len() - 1 {
            assert(b[i].before(b[b.len() - 1]));
            assert(a[j].before(a[a.len() - 1]));
            assert(false);
        }
        assert(a.last() == b.last());
        let pa = a.drop_last();
        let pb = b.drop_last();
        assert forall|c: CoreCoord| pa.contains(c) <==> pb.contains(c) by {
            lemma_drop_last_contains(a, c);
            lemma_drop_last_contains(b, c);
        }
        lemma_ascending_unique(pa, pb);
        assert(a =~= pa.push(a.last()));
        assert(b =~= pb.push(b.last()));
    }
}

proof fn lemma_drop_last_contains(a: Seq<CoreCoord>, c: CoreCoord)
    requires
        ascending(a),
        a.len() > 0,
    ensures
        a.drop_last().contains(c) <==> a.contains(c) && c != a.last(),
{
    let p = a.drop_last();
    if p.contains(c) {
        let i = choose|i: int| 0 <= i < p.len() && p[i] == c;
        assert(a[i] == c);
        assert(a[i].before(a[a.len() - 1]));
    }
    if a.contains(c) && c != a.last() {
        let i = choose|i: int| 0 <= i < a.len() && a[i] == c;
        assert(p[i] == c);
    }
}

pub fn contains_core(cores: &[CoreCoord], c: CoreCoord) -> (r: bool)
    ensures
        r == cores@.contains(c),
{
    for i in 0..cores.len()
        invariant
            forall|j: int| 0 <= j < i ==> cores@[j] != c,
    {
        if cores[i] == c {
            assert(cores@[i as int] == c);
            return true;
        }
    }
    false
}

/// Copies the first `n` cores.
pub fn copy_cores(cores: &[CoreCoord], n: usize) -> (r: Vec<CoreCoord>)
    requires
        n <= cores@.len(),
    ensures
        r@ == cores@.take(n as int),
{
    let mut out: Vec<CoreCoord> = Vec::new();
    for i in 0..n
        invariant
            n <= cores@.len(),
            out@ == cores@.take(i as int),
    {
        out.push(cores[i]);
        assert(out@ =~= cores@.take(i + 1));
    }
    out
}

/// Sorts a list of cores.
pub fn sort_cores(cores: &[CoreCoord]) -> (out: Vec<CoreCoord>)
    ensures
        sorted(out@),
        out@.to_multiset() == cores@.to_multiset(),
{
    let mut out: Vec<CoreCoord> = Vec::new();
    assert(out@ =~= cores@.take(0));
    for i in 0..cores.len()
        invariant
            sorted(out@),
            out@.to_multiset() == cores@.take(i as int).to_multiset(),
    {
        let c: CoreCoord = cores[i];
        let mut at: usize = 0;
        while at < out.len() && !c.is_before(out[at])
            invariant
                at <= out@.len(),
                sorted(out@),
                forall|k: int| 0 <= k < at ==> !c.before(#[trigger] out@[k]),
            decreases out@.len() - at,
        {
            at = at + 1;
        }
        let ghost before = out@;
        out.insert(at, c);
        proof {
            before.to_multiset_ensures();
            before.insert_ensures(at as int, c);
            vstd::seq_lib::to_multiset_insert(before, at as int, c);
            assert(cores@.take(i + 1) =~= cores@.take(i as int).push(c));
            cores@.take(i as int).to_multiset_ensures();
            assert(cores@.take(i as int).push(c).to_multiset() =~= cores@.take(
                i as int,
            ).to_multiset().insert(c));
            assert forall|a: int, b: int| 0 <= a < b < out@.len() implies !(#[trigger] out@[b]).before(
                #[trigger] out@[a],
            ) by {
                if a < at && b == at {
                    assert(!c.before(before[a]));
                } else if a == at && b > at {
                    if b - 1 > at {
                        assert(!before[b - 1].before(before[at as int]));
                    }
                    assert(c.before(before[at as int]));
                } else if a < at && b > at {
                    assert(!before[b - 1].before(before[a]));
                } else if b < at {
                    assert(!before[b].before(before[a]));
                } else {
                    assert(!before[b - 1].before(before[a - 1]));
                }
            }
        }
    }
    assert(cores@.take(cores@.len() as int) =~= cores@);
    out
}

/// The cores of a list, in order and without repetitions.
pub fn sort_dedup_cores(cores: &[CoreCoord]) -> (out: Vec<CoreCoord>)
    ensures
        ascending(out@),
        forall|c: CoreCoord| out@.contains(c) <==> cores@.contains(c),
        out@.len() <= cores@.len(),
{
    let mut out: Vec<CoreCoord> = Vec::new();
    for i in 0..cores.len()
        invariant
            ascending(out@),
            out@.len() <= i,
            forall|c: CoreCoord| out@.contains(c) <==> cores@.take(i as int).contains(c),
    {
        let c: CoreCoord = cores[i];
        let mut at: usize = 0;
        while at < out.len() && out[at].is_before(c)
            invariant
                at <= out@.len(),
                ascending(out@),
                forall|k: int| 0 <= k < at ==> (#[trigger] out@[k]).before(c),
            decreases out@.len() - at,
        {
            at = at + 1;
        }
        let ghost before = out@;
        let ghost prefix = cores@.take(i as int);
        assert(cores@.take(i + 1) =~= prefix.push(c));
        if at < out.len() && out[at] == c {
            assert forall|d: CoreCoord| out@.contains(d) <==> cores@.take(i + 1).contains(d) by {
                lemma_push_contains(prefix, c, d);
                assert(before[at as int] == c);
            }
        } else {
            out.insert(at, c);
            assert forall|d: CoreCoord| out@.contains(d) <==> cores@.take(i + 1).contains(d) by {
                lemma_push_contains(prefix, c, d);
                lemma_insert_contains(before, at as int, c, d);
            }
            assert forall|a: int, b: int| 0 <= a < b < out@.len() implies (#[trigger] out@[a]).before(
                #[trigger] out@[b],
            ) by {
                if a < at && b == at {
                    assert(before[a].before(c));
                } else if a == at && b > at {
                    if b - 1 > at {
                        assert(before[at as int].before(before[b - 1]));
                    }
                    assert(!before[at as int].before(c));
                } else if a < at && b > at {
                    assert(before[a].before(before[b - 1]));
                } else if b < at {
                    assert(before[a].before(before[b]));
                } else {
                    assert(before[a - 1].before(before[b - 1]));
                }
            }
        }
    }
    assert(cores@.take(cores@.len() as int) =~= cores@);
    out
}

pub proof fn lemma_push_contains(s: Seq<CoreCoord>, c: CoreCoord, d: CoreCoord)
    ensures
        s.push(c).contains(d) <==> s.contains(d) || d == c,
{
    if s.contains(d) {
        let i = choose|i: int| 0 <= i < s.len() && s[i] == d;
        assert(s.push(c)[i] == d);
    }
    if d == c {
        assert(s.push(c)[s.len() as int] == d);
    }
}

proof fn lemma_insert_contains(s: Seq<CoreCoord>, at: int, c: CoreCoord, d: CoreCoord)
    requires
        0 <= at <= s.len(),
    ensures
        s.insert(at, c).contains(d) <==> s.contains(d) || d == c,
{
    let g = s.insert(at, c);
    if g.contains(d) {
        let i = choose|i: int| 0 <= i < g.len() && g[i] == d;
        if i < at {
            assert(s[i] == d);
        } else if i > at {
            assert(s[i - 1] == d);
        }
    }
    if s.contains(d) {
        let i = choose|i: int| 0 <= i < s.len() && s[i] == d;
        if i < at {
            assert(g[i] == d);
        } else {
            assert(g[i + 1] == d);
        }
    }
    if d == c {
        assert(g[at] == d);
    }
}

/// Whether two lists hold the same cores in the same order.
pub fn same_cores(a: &[CoreCoord], b: &[CoreCoord]) -> (r: bool)
    ensures
        r == (a@ == b@),
{
    if a.len() != b.len() {
        return false;
    }
    for i in 0..a.len()
        invariant
            a@.len() == b@.len(),
            forall|j: int| 0 <= j < i ==> a@[j] == b@[j],
    {
        if a[i] != b[i] {
            return false;
        }
    }
    assert(a@ =~= b@);
    true
}

} // verus!
