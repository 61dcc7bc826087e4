use vstd::prelude::*;
use vstd::string::*;

verus! {

/// Number of pawns in a pattern.
pub const SIZE: usize = 5;

/// One peg of a pattern: a color, or `Empty` for a slot that holds no valid color.
#[derive(Debug, Eq, Copy, Clone)]
pub enum Pawn {
    Red,
    Green,
    Yellow,
    Blue,
    Pink,
    Empty,
}

impl PartialEq for Pawn {
    fn eq(&self, other: &Pawn) -> (r: bool)
        ensures
            r == (*self == *other),
    {
        match self {
            Pawn::Red => matches!(other, Pawn::Red),
            Pawn::Green => matches!(other, Pawn::Green),
            Pawn::Yellow => matches!(other, Pawn::Yellow),
            Pawn::Blue => matches!(other, Pawn::Blue),
            Pawn::Pink => matches!(other, Pawn::Pink),
            Pawn::Empty => matches!(other, Pawn::Empty),
        }
    }
}

impl vstd::std_specs::cmp::PartialEqSpecImpl for Pawn {
    open spec fn obeys_eq_spec() -> bool {
        true
    }

    open spec fn eq_spec(&self, other: &Pawn) -> bool {
        *self == *other
    }
}

/// A full row of pawns: a secret or a guess.
pub type Pattern = [Pawn; SIZE];

/// The name under which each pawn is written; `Empty` shows as `_`.
pub open spec fn name_of(p: Pawn) -> Seq<char> {
    match p {
        Pawn::Red => "red"@,
        Pawn::Green => "green"@,
        Pawn::Yellow => "yellow"@,
        Pawn::Blue => "blue"@,
        Pawn::Pink => "pink"@,
        Pawn::Empty => "_"@,
    }
}

/// The color that a token names, if any. Only the five lowercase color names
/// are accepted; `_` names nothing.
pub open spec fn pawn_of_name(t: Seq<char>) -> Option<Pawn> {
    if t == name_of(Pawn::Red) {
        Some(Pawn::Red)
    } else if t == name_of(Pawn::Green) {
        Some(Pawn::Green)
    } else if t == name_of(Pawn::Yellow) {
        Some(Pawn::Yellow)
    } else if t == name_of(Pawn::Blue) {
        Some(Pawn::Blue)
    } else if t == name_of(Pawn::Pink) {
        Some(Pawn::Pink)
    } else {
        None
    }
}

/// The color that a token names, or `default` when it names none.
pub open spec fn pawn_or(t: Seq<char>, default: Pawn) -> Pawn {
    match pawn_of_name(t) {
        Some(p) => p,
        None => default,
    }
}

/// Whether `chars[from..to]` spells `word`.
fn chars_spell(chars: &Vec<char>, from: usize, to: usize, word: &str) -> (r: bool)
    requires
        from <= to <= chars@.len(),
    ensures
        r == (chars@.subrange(from as int, to as int) == word@),
{
    let n = word.unicode_len();
    if to - from != n {
        return false;
    }
    let mut k: usize = 0;
    while k < n
        invariant
            n == word@.len(),
            to - from == n,
            from <= to <= chars@.len(),
            k <= n,
            forall|j: int| 0 <= j < k ==> chars@[from + j] == word@[j],
        decreases n - k,
    {
        if chars[from + k] != word.get_char(k) {
            assert(chars@.subrange(from as int, to as int)[k as int] != word@[k as int]);
            return false;
        }
        k = k + 1;
    }
    assert(chars@.subrange(from as int, to as int) =~= word@);
    true
}

impl Pawn {
    /// The name of this pawn, as the player types it (`_` for `Empty`).
    pub fn to_name(&self) -> (r: &'static str)
        ensures
            r@ == name_of(*self),
    {
        match self {
            Pawn::Red => "red",
            Pawn::Green => "green",
            Pawn::Yellow => "yellow",
            Pawn::Blue => "blue",
            Pawn::Pink => "pink",
            Pawn::Empty => "_",
        }
    }

    /// The color that `chars[from..to]` names, if any.
    pub fn from_chars(chars: &Vec<char>, from: usize, to: usize) -> (r: Option<Pawn>)
        requires
            from <= to <= chars@.len(),
        ensures
            r == pawn_of_name(chars@.subrange(from as int, to as int)),
    {
        if chars_spell(chars, from, to, Pawn::Red.to_name()) {
            Some(Pawn::Red)
        } else if chars_spell(chars, from, to, Pawn::Green.to_name()) {
            Some(Pawn::Green)
        } else if chars_spell(chars, from, to, Pawn::Yellow.to_name()) {
            Some(Pawn::Yellow)
        } else if chars_spell(chars, from, to, Pawn::Blue.to_name()) {
            Some(Pawn::Blue)
        } else if chars_spell(chars, from, to, Pawn::Pink.to_name()) {
            Some(Pawn::Pink)
        } else {
            None
        }
    }
}

} // verus!
