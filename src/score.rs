use vstd::prelude::*;
use vstd::std_specs::cmp::PartialEqSpec;

use crate::pawn::{Pawn, Pattern, SIZE};

verus! {

broadcast use vstd::seq_lib::group_to_multiset_ensures;

/// Removes the first entry of `vec` that equals `needle`, if there is one,
/// and says whether an entry was removed.
pub fn remove_in_vector<T: PartialEq>(needle: &T, vec: &mut Vec<&T>) -> (found: bool)
    ensures
        found ==> exists|i: int|
            0 <= i < old(vec)@.len() && final(vec)@ == old(vec)@.remove(i) && (T::obeys_eq_spec()
                ==> (old(vec)@[i].eq_spec(needle) && forall|j: int|
                0 <= j < i ==> !old(vec)@[j].eq_spec(needle))),
        !found ==> final(vec)@ == old(vec)@,
        !found && T::obeys_eq_spec() ==> forall|j: int|
            0 <= j < old(vec)@.len() ==> !old(vec)@[j].eq_spec(needle),
{
    let mut i: usize = 0;
    while i < vec.len()
        invariant
            i <= vec@.len(),
            vec@ == old(vec)@,
            T::obeys_eq_spec() ==> forall|j: int| 0 <= j < i ==> !old(vec)@[j].eq_spec(needle),
        decreases vec@.len() - i,
    {
        if vec[i] == needle {
            vec.remove(i);
            return true;
        }
        i = i + 1;
    }
    false
}

/// Number of positions below `n` at which `s` and `g` hold the same pawn.
pub open spec fn exact_upto(s: Seq<Pawn>, g: Seq<Pawn>, n: int) -> nat
    decreases n,
{
    if n <= 0 {
        0
    } else {
        exact_upto(s, g, n - 1) + if s[n - 1] == g[n - 1] {
            1nat
        } else {
            0nat
        }
    }
}

/// Number of positions below `n` at which `a` holds `c` and `b` holds something else.
pub open spec fn unmatched_upto(a: Seq<Pawn>, b: Seq<Pawn>, c: Pawn, n: int) -> nat
    decreases n,
{
    if n <= 0 {
        0
    } else {
        unmatched_upto(a, b, c, n - 1) + if a[n - 1] != b[n - 1] && a[n - 1] == c {
            1nat
        } else {
            0nat
        }
    }
}

/// How many misplaced `c` pawns of `s` and of `g` below `n` pair off with each other.
pub open spec fn paired_upto(s: Seq<Pawn>, g: Seq<Pawn>, c: Pawn, n: int) -> nat {
    let a = unmatched_upto(s, g, c, n);
    let b = unmatched_upto(g, s, c, n);
    if a <= b {
        a
    } else {
        b
    }
}

/// Number of color-only matches among the first `n` positions: for each pawn
/// value, the misplaced pawns of the secret and of the guess pair off one for one.
pub open spec fn partial_upto(s: Seq<Pawn>, g: Seq<Pawn>, n: int) -> nat {
    paired_upto(s, g, Pawn::Red, n) + paired_upto(s, g, Pawn::Green, n) + paired_upto(
        s,
        g,
        Pawn::Yellow,
        n,
    ) + paired_upto(s, g, Pawn::Blue, n) + paired_upto(s, g, Pawn::Pink, n) + paired_upto(
        s,
        g,
        Pawn::Empty,
        n,
    )
}

/// Black pegs: pawns of the right color in the right place.
pub open spec fn exact(s: Seq<Pawn>, g: Seq<Pawn>) -> nat {
    exact_upto(s, g, s.len() as int)
}

/// White pegs: pawns of the right color in the wrong place, each pawn counted at most once.
pub open spec fn partial(s: Seq<Pawn>, g: Seq<Pawn>) -> nat {
    partial_upto(s, g, s.len() as int)
}

/// The (black, white) score of guess `g` against secret `s`.
pub open spec fn score(s: Seq<Pawn>, g: Seq<Pawn>) -> (nat, nat) {
    (exact(s, g), partial(s, g))
}

/// How one more position changes the misplaced counts of each pawn value.
proof fn lemma_unmatched_step(s: Seq<Pawn>, g: Seq<Pawn>, i: int)
    requires
        0 <= i < s.len(),
        s.len() == g.len(),
    ensures
        forall|c: Pawn|
            #![trigger unmatched_upto(s, g, c, i + 1)]
            unmatched_upto(s, g, c, i + 1) == unmatched_upto(s, g, c, i) + (if s[i] != g[i] && s[i]
                == c {
                1int
            } else {
                0int
            }),
        forall|c: Pawn|
            #![trigger unmatched_upto(g, s, c, i + 1)]
            unmatched_upto(g, s, c, i + 1) == unmatched_upto(g, s, c, i) + (if s[i] != g[i] && g[i]
                == c {
                1int
            } else {
                0int
            }),
        s[i] == g[i] ==> partial_upto(s, g, i + 1) == partial_upto(s, g, i),
        s[i] != g[i] ==> partial_upto(s, g, i + 1) == partial_upto(s, g, i) + (if unmatched_upto(
            g,
            s,
            s[i],
            i,
        ) > unmatched_upto(s, g, s[i], i) {
            1int
        } else {
            0int
        }) + (if unmatched_upto(s, g, g[i], i) > unmatched_upto(g, s, g[i], i) {
            1int
        } else {
            0int
        }),
{
    assert forall|c: Pawn|
        #![trigger unmatched_upto(s, g, c, i + 1)]
        #![trigger unmatched_upto(g, s, c, i + 1)]
        unmatched_upto(s, g, c, i + 1) == unmatched_upto(s, g, c, i) + (if s[i] != g[i] && s[i]
            == c {
            1int
        } else {
            0int
        }) && unmatched_upto(g, s, c, i + 1) == unmatched_upto(g, s, c, i) + (if s[i] != g[i]
            && g[i] == c {
            1int
        } else {
            0int
        }) by {}
}

/// The two pools stay in step with the misplaced counts when one mismatched
/// position is settled: first the secret's pawn, then the guess's pawn.
proof fn lemma_pools_step(
    s: Seq<Pawn>,
    g: Seq<Pawn>,
    i: int,
    sol0: Seq<&Pawn>,
    prop0: Seq<&Pawn>,
    sol1: Seq<&Pawn>,
    prop1: Seq<&Pawn>,
    sol2: Seq<&Pawn>,
    prop2: Seq<&Pawn>,
    r1: bool,
    r2: bool,
)
    requires
        0 <= i < s.len(),
        s.len() == g.len(),
        s[i] != g[i],
        forall|c: Pawn|
            #![trigger pool_count(sol0, c)]
            pool_count(sol0, c) == unmatched_upto(s, g, c, i) - paired_upto(s, g, c, i),
        forall|c: Pawn|
            #![trigger pool_count(prop0, c)]
            pool_count(prop0, c) == unmatched_upto(g, s, c, i) - paired_upto(s, g, c, i),
        r1 == (pool_count(prop0, s[i]) > 0),
        forall|c: Pawn|
            #![trigger pool_count(prop1, c)]
            pool_count(prop1, c) == pool_count(prop0, c) - (if r1 && c == s[i] {
                1int
            } else {
                0int
            }),
        forall|c: Pawn|
            #![trigger pool_count(sol1, c)]
            pool_count(sol1, c) == pool_count(sol0, c) + (if !r1 && c == s[i] {
                1int
            } else {
                0int
            }),
        r2 == (pool_count(sol1, g[i]) > 0),
        forall|c: Pawn|
            #![trigger pool_count(sol2, c)]
            pool_count(sol2, c) == pool_count(sol1, c) - (if r2 && c == g[i] {
                1int
            } else {
                0int
            }),
        forall|c: Pawn|
            #![trigger pool_count(prop2, c)]
            pool_count(prop2, c) == pool_count(prop1, c) + (if !r2 && c == g[i] {
                1int
            } else {
                0int
            }),
    ensures
        forall|c: Pawn|
            #![trigger pool_count(sol2, c)]
            pool_count(sol2, c) == unmatched_upto(s, g, c, i + 1) - paired_upto(s, g, c, i + 1),
        forall|c: Pawn|
            #![trigger pool_count(prop2, c)]
            pool_count(prop2, c) == unmatched_upto(g, s, c, i + 1) - paired_upto(s, g, c, i + 1),
        partial_upto(s, g, i + 1) == partial_upto(s, g, i) + (if r1 {
            1int
        } else {
            0int
        }) + (if r2 {
            1int
        } else {
            0int
        }),
{
    lemma_unmatched_step(s, g, i);
    let x = s[i];
    let y = g[i];
    assert(pool_count(prop0, x) == unmatched_upto(g, s, x, i) - paired_upto(s, g, x, i));
    assert(pool_count(sol0, y) == unmatched_upto(s, g, y, i) - paired_upto(s, g, y, i));
    assert(pool_count(sol1, y) == pool_count(sol0, y));
    assert forall|c: Pawn|
        #![trigger pool_count(sol2, c)]
        pool_count(sol2, c) == unmatched_upto(s, g, c, i + 1) - paired_upto(s, g, c, i + 1) by {
        assert(pool_count(sol0, c) == unmatched_upto(s, g, c, i) - paired_upto(s, g, c, i));
        assert(pool_count(prop0, c) == unmatched_upto(g, s, c, i) - paired_upto(s, g, c, i));
        assert(pool_count(sol1, c) == pool_count(sol0, c) + (if !r1 && c == x {
            1int
        } else {
            0int
        }));
    }
    assert forall|c: Pawn|
        #![trigger pool_count(prop2, c)]
        pool_count(prop2, c) == unmatched_upto(g, s, c, i + 1) - paired_upto(s, g, c, i + 1) by {
        assert(pool_count(sol0, c) == unmatched_upto(s, g, c, i) - paired_upto(s, g, c, i));
        assert(pool_count(prop0, c) == unmatched_upto(g, s, c, i) - paired_upto(s, g, c, i));
        assert(pool_count(prop1, c) == pool_count(prop0, c) - (if r1 && c == x {
            1int
        } else {
            0int
        }));
    }
}

/// Number of occurrences of `c` in a pool of pawn references.
pub open spec fn pool_count(pool: Seq<&Pawn>, c: Pawn) -> nat {
    pool.to_multiset().count(&c)
}

/// Takes one pawn equal to `pawn` out of `waiting` and reports a pair, or,
/// when `waiting` holds none, adds `pawn` to `unpaired`.
fn pair_or_keep<'a>(pawn: &'a Pawn, waiting: &mut Vec<&'a Pawn>, unpaired: &mut Vec<&'a Pawn>) -> (r:
    bool)
    ensures
        r == (pool_count(old(waiting)@, *pawn) > 0),
        forall|c: Pawn|
            #![trigger pool_count(final(waiting)@, c)]
            pool_count(final(waiting)@, c) == pool_count(old(waiting)@, c) - (if r && c == *pawn {
                1int
            } else {
                0int
            }),
        forall|c: Pawn|
            #![trigger pool_count(final(unpaired)@, c)]
            pool_count(final(unpaired)@, c) == pool_count(old(unpaired)@, c) + (if !r && c
                == *pawn {
                1int
            } else {
                0int
            }),
{
    let ghost w0 = waiting@;
    let ghost u0 = unpaired@;
    if remove_in_vector(pawn, waiting) {
        proof {
            let k = choose|k: int|
                0 <= k < w0.len() && waiting@ == w0.remove(k) && w0[k].eq_spec(pawn);
            assert(w0[k] == pawn);
            assert(w0.contains(pawn));
            vstd::seq_lib::to_multiset_remove(w0, k);
        }
        true
    } else {
        proof {
            assert(!w0.contains(pawn));
        }
        unpaired.push(pawn);
        proof {
            vstd::seq_lib::to_multiset_build(u0, pawn);
        }
        false
    }
}

/// Compares the guess `proposition` with the secret `solution` and returns
/// (black, white): exact matches, then color-only matches.
pub fn check_matches(solution: &Pattern, proposition: &Pattern) -> (r: (u8, u8))
    ensures
        r.0 == exact(solution@, proposition@),
        r.1 == partial(solution@, proposition@),
{
    let ghost s = solution@;
    let ghost g = proposition@;
    let mut score_black_white: (u8, u8) = (0, 0);
    let mut buffer_sol: Vec<&Pawn> = Vec::new();
    let mut buffer_prop: Vec<&Pawn> = Vec::new();
    let mut i: usize = 0;
    while i < SIZE
        invariant
            i <= SIZE,
            s.len() == SIZE,
            g.len() == SIZE,
            s == solution@,
            g == proposition@,
            score_black_white.0 == exact_upto(s, g, i as int),
            score_black_white.1 == partial_upto(s, g, i as int),
            exact_upto(s, g, i as int) <= i,
            partial_upto(s, g, i as int) <= 2 * i,
            forall|c: Pawn|
                pool_count(buffer_sol@, c) == unmatched_upto(s, g, c, i as int) - paired_upto(
                    s,
                    g,
                    c,
                    i as int,
                ),
            forall|c: Pawn|
                pool_count(buffer_prop@, c) == unmatched_upto(g, s, c, i as int) - paired_upto(
                    s,
                    g,
                    c,
                    i as int,
                ),
        decreases SIZE - i,
    {
        proof {
            lemma_unmatched_step(s, g, i as int);
        }
        let sol: &Pawn = &solution[i];
        let prop: &Pawn = &proposition[i];
        if sol == prop {
            score_black_white.0 = score_black_white.0 + 1;
        } else {
            let ghost sol0 = buffer_sol@;
            let ghost prop0 = buffer_prop@;
            let first = pair_or_keep(sol, &mut buffer_prop, &mut buffer_sol);
            if first {
                score_black_white.1 = score_black_white.1 + 1;
            }
            let ghost sol1 = buffer_sol@;
            let ghost prop1 = buffer_prop@;
            let second = pair_or_keep(prop, &mut buffer_sol, &mut buffer_prop);
            if second {
                score_black_white.1 = score_black_white.1 + 1;
            }
            proof {
                lemma_pools_step(
                    s,
                    g,
                    i as int,
                    sol0,
                    prop0,
                    sol1,
                    prop1,
                    buffer_sol@,
                    buffer_prop@,
                    first,
                    second,
                );
            }
        }
        i = i + 1;
    }
    score_black_white
}

/// A pattern agrees with itself everywhere and leaves nothing misplaced.
proof fn lemma_self_upto(p: Seq<Pawn>, n: int)
    requires
        0 <= n <= p.len(),
    ensures
        exact_upto(p, p, n) == n,
        forall|c: Pawn| #[trigger] unmatched_upto(p, p, c, n) == 0,
    decreases n,
{
    if n > 0 {
        lemma_self_upto(p, n - 1);
    }
    assert forall|c: Pawn| #[trigger] unmatched_upto(p, p, c, n) == 0 by {
        if n > 0 {
            assert(unmatched_upto(p, p, c, n - 1) == 0);
        }
    }
}

/// Scoring a pattern against itself gives all black pegs and no white ones.
pub proof fn lemma_score_self(p: Seq<Pawn>)
    requires
        p.len() == SIZE,
    ensures
        score(p, p) == (SIZE as nat, 0nat),
{
    lemma_self_upto(p, p.len() as int);
    assert(paired_upto(p, p, Pawn::Red, p.len() as int) == 0);
    assert(paired_upto(p, p, Pawn::Green, p.len() as int) == 0);
    assert(paired_upto(p, p, Pawn::Yellow, p.len() as int) == 0);
    assert(paired_upto(p, p, Pawn::Blue, p.len() as int) == 0);
    assert(paired_upto(p, p, Pawn::Pink, p.len() as int) == 0);
    assert(paired_upto(p, p, Pawn::Empty, p.len() as int) == 0);
}

/// Every position below `n` is either an exact match or a misplaced pawn of
/// exactly one value.
proof fn lemma_positions_upto(s: Seq<Pawn>, g: Seq<Pawn>, n: int)
    requires
        0 <= n <= s.len(),
        s.len() == g.len(),
    ensures
        exact_upto(s, g, n) + unmatched_upto(s, g, Pawn::Red, n) + unmatched_upto(
            s,
            g,
            Pawn::Green,
            n,
        ) + unmatched_upto(s, g, Pawn::Yellow, n) + unmatched_upto(s, g, Pawn::Blue, n)
            + unmatched_upto(s, g, Pawn::Pink, n) + unmatched_upto(s, g, Pawn::Empty, n) == n,
    decreases n,
{
    if n > 0 {
        lemma_positions_upto(s, g, n - 1);
    }
}

/// Black and white pegs together never exceed the pattern size.
pub proof fn lemma_score_bounded(s: Seq<Pawn>, g: Seq<Pawn>)
    requires
        s.len() == SIZE,
        g.len() == SIZE,
    ensures
        exact(s, g) + partial(s, g) <= SIZE,
{
    lemma_positions_upto(s, g, s.len() as int);
}

/// The white-peg count does not depend on which pattern is the secret; in
/// particular it is the same both ways for two patterns of distinct colors.
pub proof fn lemma_partial_symmetric(s: Seq<Pawn>, g: Seq<Pawn>)
    requires
        s.len() == SIZE,
        g.len() == SIZE,
    ensures
        partial(s, g) == partial(g, s),
{
}

} // verus!
