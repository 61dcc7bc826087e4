use rand::seq::SliceRandom;
use vstd::prelude::*;

use crate::pawn::{Pawn, Pattern, SIZE};

verus! {

/// `r` is made of entries of `colors` taken at pairwise distinct positions.
pub open spec fn drawn_from(r: Seq<Pawn>, colors: Seq<Pawn>) -> bool {
    exists|idx: Seq<int>|
        #![trigger idx.len()]
        idx.len() == r.len() && idx.no_duplicates() && forall|k: int|
            0 <= k < r.len() ==> 0 <= #[trigger] idx[k] < colors.len() && r[k] == colors[idx[k]]
}

/// Relies on rand's `SliceRandom::choose_multiple`, driven by `rand::thread_rng`:
/// it yields `min(amount, colors.len())` entries of `colors`, without repetition
/// of a position, in random order.
#[verifier::external_body]
fn choose_multiple(colors: &[Pawn], amount: usize) -> (r: Vec<Pawn>)
    ensures
        r@.len() == if amount <= colors@.len() {
            amount as int
        } else {
            colors@.len() as int
        },
        drawn_from(r@, colors@),
{
    colors.choose_multiple(&mut rand::thread_rng(), amount).copied().collect()
}

/// Entries drawn at distinct positions of a sequence without repeats are
/// distinct, and each is an entry of that sequence.
proof fn lemma_drawn_entries(r: Seq<Pawn>, colors: Seq<Pawn>)
    requires
        drawn_from(r, colors),
        colors.no_duplicates(),
    ensures
        r.no_duplicates(),
        forall|k: int| 0 <= k < r.len() ==> colors.contains(#[trigger] r[k]),
{
    let idx = choose|idx: Seq<int>|
        #![trigger idx.len()]
        idx.len() == r.len() && idx.no_duplicates() && forall|k: int|
            0 <= k < r.len() ==> 0 <= #[trigger] idx[k] < colors.len() && r[k] == colors[idx[k]];
    assert forall|i: int, j: int| 0 <= i < r.len() && 0 <= j < r.len() && i != j implies r[i]
        != r[j] by {
        assert(idx[i] != idx[j]);
    }
    assert forall|k: int| 0 <= k < r.len() implies colors.contains(#[trigger] r[k]) by {
        assert(colors[idx[k]] == r[k]);
    }
}

/// Five distinct colors, none `Empty`, use up the whole palette.
proof fn lemma_full_palette(p: Seq<Pawn>)
    requires
        p.len() == 5,
        p.no_duplicates(),
        forall|i: int| 0 <= i < 5 ==> #[trigger] p[i] != Pawn::Empty,
    ensures
        forall|c: Pawn| c != Pawn::Empty ==> #[trigger] p.contains(c),
{
    assert forall|c: Pawn| c != Pawn::Empty implies #[trigger] p.contains(c) by {
        assert(p[0] != p[1] && p[0] != p[2] && p[0] != p[3] && p[0] != p[4]);
        assert(p[1] != p[2] && p[1] != p[3] && p[1] != p[4]);
        assert(p[2] != p[3] && p[2] != p[4] && p[3] != p[4]);
        assert(p[0] != Pawn::Empty && p[1] != Pawn::Empty && p[2] != Pawn::Empty);
        assert(p[3] != Pawn::Empty && p[4] != Pawn::Empty);
        if p[0] != c && p[1] != c && p[2] != c && p[3] != c && p[4] != c {
            assert(false);
        }
    }
}

/// The colors a secret is drawn from, in their listing order.
pub open spec fn palette() -> Seq<Pawn> {
    seq![Pawn::Red, Pawn::Green, Pawn::Yellow, Pawn::Blue, Pawn::Pink]
}

/// Lays out the `SIZE` drawn colors as a pattern, in the order they were drawn.
pub fn pattern_of_draw(drawn: &Vec<Pawn>) -> (p: Pattern)
    requires
        drawn@.len() == SIZE,
    ensures
        p@ == drawn@,
{
    let mut p: Pattern = [Pawn::Empty;SIZE];
    let mut i: usize = 0;
    while i < SIZE
        invariant
            i <= SIZE,
            drawn@.len() == SIZE,
            forall|j: int| 0 <= j < i ==> #[trigger] p@[j] == drawn@[j],
        decreases SIZE - i,
    {
        p[i] = drawn[i];
        i = i + 1;
    }
    assert(p@ =~= drawn@);
    p
}

impl Pawn {
    /// Draws a secret: `SIZE` colors of the palette taken at distinct positions
    /// in random order, so none is `Empty`, none repeats, and each color appears.
    pub fn new_random_game() -> (p: Pattern)
        ensures
            drawn_from(p@, palette()),
            forall|i: int| 0 <= i < SIZE ==> #[trigger] p@[i] != Pawn::Empty,
            p@.no_duplicates(),
            forall|c: Pawn| c != Pawn::Empty ==> #[trigger] p@.contains(c),
    {
        let colors: [Pawn; 5] = [Pawn::Red, Pawn::Green, Pawn::Yellow, Pawn::Blue, Pawn::Pink];
        assert(colors@ =~= palette());
        let drawn = choose_multiple(colors.as_slice(), SIZE);
        proof {
            lemma_drawn_entries(drawn@, colors@);
        }
        let p = pattern_of_draw(&drawn);
        proof {
            lemma_full_palette(p@);
        }
        p
    }
}

} // verus!
