//! Exhaustive search for the best of a finite list of choices.

use vstd::prelude::*;

verus! {

/// A choice: three digits that place it on the cores, the height and the width
/// of its subblocks, and the position of its block width in a list.
pub struct Choice {
    pub a: int,
    pub b: int,
    pub c: int,
    pub h: int,
    pub w: int,
    pub d: int,
}

/// A score; earlier parts count more.
pub type Score = (int, int, int, int, int);

/// Whether score `s` beats score `t`.
pub open spec fn beats(s: Score, t: Score) -> bool {
    ||| s.0 > t.0
    ||| s.0 == t.0 && s.1 > t.1
    ||| s.0 == t.0 && s.1 == t.1 && s.2 > t.2
    ||| s.0 == t.0 && s.1 == t.1 && s.2 == t.2 && s.3 > t.3
    ||| s.0 == t.0 && s.1 == t.1 && s.2 == t.2 && s.3 == t.3 && s.4 > t.4
}

/// Choices in the order in which they are tried.
pub open spec fn earlier(p: Choice, q: Choice) -> bool {
    ||| p.a < q.a
    ||| p.a == q.a && p.b < q.b
    ||| p.a == q.a && p.b == q.b && p.c < q.c
    ||| p.a == q.a && p.b == q.b && p.c == q.c && p.h < q.h
    ||| p.a == q.a && p.b == q.b && p.c == q.c && p.h == q.h && p.w < q.w
    ||| p.a == q.a && p.b == q.b && p.c == q.c && p.h == q.h && p.w == q.w && p.d < q.d
}

/// Whether `best` is the first of the best choices among those before `end`.
pub open spec fn best_before(
    valid: spec_fn(Choice) -> bool,
    score: spec_fn(Choice) -> Score,
    best: Option<Choice>,
    end: Choice,
) -> bool {
    match best {
        None => forall|p: Choice| earlier(p, end) ==> !#[trigger] valid(p),
        Some(b) => {
            &&& valid(b)
            &&& earlier(b, end)
            &&& forall|p: Choice| #[trigger]
                valid(p) && earlier(p, end) ==> {
                    ||| p == b
                    ||| beats(score(b), score(p))
                    ||| !beats(score(p), score(b)) && earlier(b, p)
                }
        },
    }
}

/// Whether `b` is the first of the best choices.
pub open spec fn is_best(
    valid: spec_fn(Choice) -> bool,
    score: spec_fn(Choice) -> Score,
    b: Choice,
) -> bool {
    &&& valid(b)
    &&& forall|p: Choice| #[trigger]
        valid(p) ==> {
            ||| p == b
            ||| beats(score(b), score(p))
            ||| !beats(score(p), score(b)) && earlier(b, p)
        }
}

/// The first of the best choices, if there is a valid one.
pub open spec fn best_choice(
    valid: spec_fn(Choice) -> bool,
    score: spec_fn(Choice) -> Score,
) -> Option<Choice> {
    if exists|b: Choice| is_best(valid, score, b) {
        Some(choose|b: Choice| is_best(valid, score, b))
    } else {
        None
    }
}

/// There is only one first of the best choices.
pub proof fn lemma_best_unique(
    valid: spec_fn(Choice) -> bool,
    score: spec_fn(Choice) -> Score,
    b: Choice,
)
    requires
        is_best(valid, score, b),
    ensures
        best_choice(valid, score) == Some(b),
{
    let other = choose|o: Choice| is_best(valid, score, o);
    assert(is_best(valid, score, other));
    assert(valid(other));
    assert(valid(b));
}

/// Without a valid choice there is no best one.
pub proof fn lemma_best_none(valid: spec_fn(Choice) -> bool, score: spec_fn(Choice) -> Score)
    requires
        forall|p: Choice| !#[trigger] valid(p),
    ensures
        best_choice(valid, score) is None,
{
    if exists|b: Choice| is_best(valid, score, b) {
        let b = choose|b: Choice| is_best(valid, score, b);
        assert(valid(b));
    }
}

/// Choices that are not valid can be skipped.
pub proof fn lemma_skip(
    valid: spec_fn(Choice) -> bool,
    score: spec_fn(Choice) -> Score,
    best: Option<Choice>,
    from: Choice,
    to: Choice,
)
    requires
        best_before(valid, score, best, from),
        earlier(from, to) || from == to,
        forall|p: Choice| #[trigger] valid(p) && earlier(p, to) ==> earlier(p, from),
    ensures
        best_before(valid, score, best, to),
{
    match best {
        None => {
            assert forall|p: Choice| earlier(p, to) implies !#[trigger] valid(p) by {
                if valid(p) {
                    assert(earlier(p, from));
                }
            }
        },
        Some(b) => {},
    }
}

/// A choice that was looked at either becomes the best or is not better.
pub proof fn lemma_take(
    valid: spec_fn(Choice) -> bool,
    score: spec_fn(Choice) -> Score,
    best: Option<Choice>,
    at: Choice,
    next: Choice,
)
    requires
        best_before(valid, score, best, at),
        valid(at),
        next == (Choice { d: at.d + 1, ..at }),
    ensures
        ({
            let better = match best {
                None => true,
                Some(b) => beats(score(at), score(b)),
            };
            best_before(
                valid,
                score,
                if better {
                    Some(at)
                } else {
                    best
                },
                next,
            )
        }),
{
    let better = match best {
        None => true,
        Some(b) => beats(score(at), score(b)),
    };
    let after = if better {
        Some(at)
    } else {
        best
    };
    let b = after->0;
    assert forall|p: Choice| #[trigger] valid(p) && earlier(p, next) implies {
        ||| p == b
        ||| beats(score(b), score(p))
        ||| !beats(score(p), score(b)) && earlier(b, p)
    } by {
        if p != at {
            assert(earlier(p, at));
        }
    }
}

/// Once all valid choices were looked at, the best so far is the best.
pub proof fn lemma_done(
    valid: spec_fn(Choice) -> bool,
    score: spec_fn(Choice) -> Score,
    best: Option<Choice>,
    end: Choice,
)
    requires
        best_before(valid, score, best, end),
        forall|p: Choice| #[trigger] valid(p) ==> earlier(p, end),
    ensures
        best_choice(valid, score) == best,
        best is None ==> forall|p: Choice| !#[trigger] valid(p),
{
    match best {
        None => {
            assert forall|p: Choice| !#[trigger] valid(p) by {
                if valid(p) {
                    assert(earlier(p, end));
                }
            }
            lemma_best_none(valid, score);
        },
        Some(b) => {
            assert(is_best(valid, score, b));
            lemma_best_unique(valid, score, b);
        },
    }
}

/// A score as it is kept while searching.
pub type ScoreWords = (usize, usize, usize, usize, usize);

/// The score that kept words stand for. Parts that are to be small are kept as
/// their distance from the largest word.
pub open spec fn kept_beats(s: ScoreWords, t: ScoreWords) -> bool {
    beats(
        (s.0 as int, s.1 as int, s.2 as int, s.3 as int, s.4 as int),
        (t.0 as int, t.1 as int, t.2 as int, t.3 as int, t.4 as int),
    )
}

pub fn score_beats(s: ScoreWords, t: ScoreWords) -> (r: bool)
    ensures
        r == kept_beats(s, t),
{
    if s.0 != t.0 {
        s.0 > t.0
    } else if s.1 != t.1 {
        s.1 > t.1
    } else if s.2 != t.2 {
        s.2 > t.2
    } else if s.3 != t.3 {
        s.3 > t.3
    } else {
        s.4 > t.4
    }
}

} // verus!
