use vstd::prelude::*;
use vstd::string::*;

use crate::pawn::{pawn_of_name, pawn_or, Pawn, Pattern, SIZE};

verus! {

/// Whether a character has the Unicode `White_Space` property.
pub open spec fn white_space(c: char) -> bool {
    let u = c as u32;
    (0x09 <= u <= 0x0d) || u == 0x20 || u == 0x85 || u == 0xa0 || u == 0x1680 || (0x2000 <= u
        <= 0x200a) || u == 0x2028 || u == 0x2029 || u == 0x202f || u == 0x205f || u == 0x3000
}

/// Whether `c` is whitespace, as `char::is_whitespace` tells it.
pub fn is_white(c: char) -> (r: bool)
    ensures
        r == white_space(c),
{
    let u = c as u32;
    (0x09 <= u && u <= 0x0d) || u == 0x20 || u == 0x85 || u == 0xa0 || u == 0x1680 || (0x2000
        <= u && u <= 0x200a) || u == 0x2028 || u == 0x2029 || u == 0x202f || u == 0x205f || u
        == 0x3000
}

/// The first position at or after `i` that does not hold whitespace, or the end.
pub open spec fn skip_white(t: Seq<char>, i: int) -> int
    decreases t.len() - i,
{
    if 0 <= i < t.len() && white_space(t[i]) {
        skip_white(t, i + 1)
    } else {
        i
    }
}

/// The end of `t[lo..j]` once trailing whitespace is dropped.
pub open spec fn skip_white_back(t: Seq<char>, lo: int, j: int) -> int
    decreases j - lo,
{
    if lo < j && white_space(t[j - 1]) {
        skip_white_back(t, lo, j - 1)
    } else {
        j
    }
}

/// `t` without leading and trailing whitespace.
pub open spec fn trimmed(t: Seq<char>) -> Seq<char> {
    let a = skip_white(t, 0);
    t.subrange(a, skip_white_back(t, a, t.len() as int))
}

/// The pieces of `t` between occurrences of `sep`: one more piece than there
/// are separators, so an empty text gives a single empty piece.
pub open spec fn pieces(t: Seq<char>, sep: char) -> Seq<Seq<char>>
    decreases t.len(),
{
    if t.len() == 0 {
        seq![Seq::empty()]
    } else {
        let rest = pieces(t.drop_last(), sep);
        if t.last() == sep {
            rest.push(Seq::empty())
        } else {
            rest.update(rest.len() - 1, rest.last().push(t.last()))
        }
    }
}

proof fn lemma_pieces_nonempty(t: Seq<char>, sep: char)
    ensures
        pieces(t, sep).len() >= 1,
    decreases t.len(),
{
    if t.len() > 0 {
        lemma_pieces_nonempty(t.drop_last(), sep);
    }
}

/// Cutting `t`, a separator, then `y` gives the pieces of `t` followed by the
/// pieces of `y`.
pub proof fn lemma_pieces_concat(t: Seq<char>, y: Seq<char>, sep: char)
    ensures
        pieces(t.push(sep) + y, sep) == pieces(t, sep) + pieces(y, sep),
    decreases y.len(),
{
    if y.len() == 0 {
        assert(t.push(sep) + y =~= t.push(sep));
        assert(t.push(sep).drop_last() =~= t);
        assert(pieces(t, sep).push(Seq::empty()) =~= pieces(t, sep) + seq![Seq::<char>::empty()]);
    } else {
        let w = t.push(sep) + y;
        assert(w.drop_last() =~= t.push(sep) + y.drop_last());
        lemma_pieces_concat(t, y.drop_last(), sep);
        lemma_pieces_nonempty(y.drop_last(), sep);
        let a = pieces(t, sep);
        let b = pieces(y.drop_last(), sep);
        if y.last() == sep {
            assert((a + b).push(Seq::empty()) =~= a + b.push(Seq::empty()));
        } else {
            assert((a + b).update((a + b).len() - 1, (a + b).last().push(y.last())) =~= a
                + b.update(b.len() - 1, b.last().push(y.last())));
        }
    }
}

/// Once a text holds `SIZE` tokens, whatever follows another separator leaves
/// the guess built from its tokens unchanged.
pub proof fn lemma_extra_tokens_ignored(t: Seq<char>, y: Seq<char>, sep: char, default: Pawn)
    requires
        pieces(t, sep).len() >= SIZE,
    ensures
        pieces(t.push(sep) + y, sep).map_values(|p: Seq<char>| pawn_or(p, default)).take(
            SIZE as int,
        ) == pieces(t, sep).map_values(|p: Seq<char>| pawn_or(p, default)).take(SIZE as int),
{
    lemma_pieces_concat(t, y, sep);
    assert(pieces(t.push(sep) + y, sep).map_values(|p: Seq<char>| pawn_or(p, default)).take(
        SIZE as int,
    ) =~= pieces(t, sep).map_values(|p: Seq<char>| pawn_or(p, default)).take(SIZE as int));
}

proof fn lemma_skip_white_bounds(t: Seq<char>, i: int)
    requires
        0 <= i <= t.len(),
    ensures
        i <= skip_white(t, i) <= t.len(),
    decreases t.len() - i,
{
    if i < t.len() && white_space(t[i]) {
        lemma_skip_white_bounds(t, i + 1);
    }
}

proof fn lemma_skip_white_back_bounds(t: Seq<char>, lo: int, j: int)
    requires
        lo <= j,
    ensures
        lo <= skip_white_back(t, lo, j) <= j,
    decreases j - lo,
{
    if lo < j && white_space(t[j - 1]) {
        lemma_skip_white_back_bounds(t, lo, j - 1);
    }
}

/// A non-empty text that trimming leaves as it is starts and ends with a
/// character that is not whitespace.
proof fn lemma_trimmed_ends(x: Seq<char>)
    requires
        trimmed(x) == x,
        x.len() > 0,
    ensures
        !white_space(x[0]),
        !white_space(x.last()),
{
    let a = skip_white(x, 0);
    lemma_skip_white_bounds(x, 0);
    lemma_skip_white_back_bounds(x, a, x.len() as int);
    let b = skip_white_back(x, a, x.len() as int);
    assert(x.subrange(a, b).len() == x.len());
    if white_space(x[0]) {
        lemma_skip_white_bounds(x, 1);
    }
    if white_space(x.last()) {
        lemma_skip_white_back_bounds(x, a, x.len() - 1);
    }
}

/// In an input line whose trimmed text already holds `SIZE` tokens, a further
/// `-` and whatever follows it (without trailing whitespace) change none of
/// the first `SIZE` tokens read, so the guess built from them stays the same.
pub proof fn lemma_line_extra_tokens_ignored(x: Seq<char>, y: Seq<char>, default: Pawn)
    requires
        trimmed(x) == x,
        pieces(x, '-').len() >= SIZE,
        y.len() == 0 || !white_space(y.last()),
    ensures
        pieces(trimmed(x.push('-') + y), '-').map_values(|p: Seq<char>| pawn_or(p, default)).take(
            SIZE as int,
        ) == pieces(trimmed(x), '-').map_values(|p: Seq<char>| pawn_or(p, default)).take(
            SIZE as int,
        ),
{
    if x.len() == 0 {
        assert(pieces(x, '-').len() == 1);
    }
    lemma_trimmed_ends(x);
    let w = x.push('-') + y;
    assert(w[0] == x[0]);
    if y.len() == 0 {
        assert(w.last() == '-');
    } else {
        assert(w.last() == y.last());
    }
    assert(skip_white(w, 0) == 0);
    assert(skip_white_back(w, 0, w.len() as int) == w.len());
    assert(trimmed(w) =~= w);
    lemma_extra_tokens_ignored(x, y, '-', default);
}

/// A line that is blank once trimmed reads as a single token that names no
/// color, so it becomes one `default` pawn.
pub proof fn lemma_blank_line_is_one_token(line: Seq<char>, sep: char, default: Pawn)
    requires
        trimmed(line).len() == 0,
    ensures
        pieces(trimmed(line), sep).map_values(|t: Seq<char>| pawn_or(t, default)) == seq![default],
{
    reveal_strlit("red");
    reveal_strlit("green");
    reveal_strlit("yellow");
    reveal_strlit("blue");
    reveal_strlit("pink");
    assert(trimmed(line) =~= Seq::<char>::empty());
    assert(pawn_of_name(Seq::<char>::empty()) is None);
    assert(pieces(trimmed(line), sep).map_values(|t: Seq<char>| pawn_or(t, default)) =~= seq![
        default,
    ]);
}

/// The characters of `s`, in order.
pub fn chars_of(s: &str) -> (r: Vec<char>)
    ensures
        r@ == s@,
{
    let n = s.unicode_len();
    let mut r: Vec<char> = Vec::new();
    let mut k: usize = 0;
    while k < n
        invariant
            n == s@.len(),
            k <= n,
            r@ == s@.subrange(0, k as int),
        decreases n - k,
    {
        r.push(s.get_char(k));
        k = k + 1;
    }
    assert(r@ =~= s@);
    r
}

/// Splits `source`, trimmed of surrounding whitespace, at each `pattern`
/// character, and reads each piece as a color name; a piece that names no
/// color becomes `default`.
pub fn split_into_type(source: &str, pattern: char, default: Pawn) -> (r: Vec<Pawn>)
    ensures
        r@ == pieces(trimmed(source@), pattern).map_values(|t: Seq<char>| pawn_or(t, default)),
{
    let chars = chars_of(source);
    let n = chars.len();
    let ghost t = chars@;
    let mut a: usize = 0;
    while a < n && is_white(chars[a])
        invariant
            t == chars@,
            n == t.len(),
            a <= n,
            skip_white(t, a as int) == skip_white(t, 0),
        decreases n - a,
    {
        a = a + 1;
    }
    let mut b: usize = n;
    while b > a && is_white(chars[b - 1])
        invariant
            t == chars@,
            n == t.len(),
            a == skip_white(t, 0),
            a <= b <= n,
            skip_white_back(t, a as int, b as int) == skip_white_back(t, a as int, n as int),
        decreases b - a,
    {
        b = b - 1;
    }
    assert(t.subrange(a as int, b as int) == trimmed(source@));
    split_tokens(&chars, a, b, pattern, default)
}

/// Splits `chars[from..to]` at each `pattern` character and reads each piece
/// as a color name; a piece that names no color becomes `default`.
pub fn split_tokens(chars: &Vec<char>, from: usize, to: usize, pattern: char, default: Pawn) -> (r:
    Vec<Pawn>)
    requires
        from <= to <= chars@.len(),
    ensures
        r@ == pieces(chars@.subrange(from as int, to as int), pattern).map_values(
            |t: Seq<char>| pawn_or(t, default),
        ),
{
    let ghost t = chars@;
    let n = chars.len();
    let a = from;
    let b = to;
    let ghost u = t.subrange(a as int, b as int);
    let mut out: Vec<Pawn> = Vec::new();
    let ghost mut done: Seq<Seq<char>> = Seq::empty();
    let mut start: usize = a;
    assert(u.subrange(0, 0) =~= Seq::<char>::empty());
    assert(t.subrange(a as int, a as int) =~= Seq::<char>::empty());
    assert(done.push(Seq::<char>::empty()) =~= seq![Seq::<char>::empty()]);
    let mut k: usize = a;
    while k < b
        invariant
            t == chars@,
            u == t.subrange(a as int, b as int),
            a <= start <= k <= b <= n,
            n == t.len(),
            pieces(u.subrange(0, k - a), pattern) == done.push(t.subrange(start as int, k as int)),
            out@ == done.map_values(|p: Seq<char>| pawn_or(p, default)),
        decreases b - k,
    {
        assert(u.subrange(0, k + 1 - a).drop_last() =~= u.subrange(0, k - a));
        if chars[k] == pattern {
            let p = match Pawn::from_chars(&chars, start, k) {
                Some(c) => c,
                None => default,
            };
            out.push(p);
            proof {
                done = done.push(t.subrange(start as int, k as int));
                assert(t.subrange(k + 1, k + 1) =~= Seq::<char>::empty());
                assert(out@ =~= done.map_values(|p: Seq<char>| pawn_or(p, default)));
            }
            start = k + 1;
        } else {
            assert(t.subrange(start as int, k + 1) =~= t.subrange(start as int, k as int).push(
                t[k as int],
            ));
        }
        k = k + 1;
    }
    assert(u.subrange(0, b - a) =~= u);
    let p = match Pawn::from_chars(&chars, start, b) {
        Some(c) => c,
        None => default,
    };
    out.push(p);
    proof {
        done = done.push(t.subrange(start as int, b as int));
        assert(out@ =~= done.map_values(|p: Seq<char>| pawn_or(p, default)));
    }
    out
}

/// The pawn that a row of tokens puts at position `i`: the `i`-th token, or
/// `Empty` past the last one.
pub open spec fn slot(tokens: Seq<Pawn>, i: int) -> Pawn {
    if i < tokens.len() {
        tokens[i]
    } else {
        Pawn::Empty
    }
}

/// The guess made of the first `SIZE` tokens; tokens past them are ignored
/// and missing ones leave `Empty`.
pub fn proposition_of(tokens: &Vec<Pawn>) -> (r: Pattern)
    ensures
        forall|i: int| 0 <= i < SIZE ==> #[trigger] r@[i] == slot(tokens@, i),
{
    let mut proposition: Pattern = [Pawn::Empty;SIZE];
    let mut i: usize = 0;
    while i < SIZE && i < tokens.len()
        invariant
            i <= SIZE,
            forall|j: int| 0 <= j < i ==> #[trigger] proposition@[j] == slot(tokens@, j),
            forall|j: int| i <= j < SIZE ==> #[trigger] proposition@[j] == Pawn::Empty,
        decreases SIZE - i,
    {
        proposition[i] = tokens[i];
        i = i + 1;
    }
    proposition
}

/// Reads a guess from one input line of color names joined by `-`: names that
/// are not colors become `Empty`, extra names are ignored, missing ones leave `Empty`.
pub fn read_proposition(line: &str) -> (r: Pattern)
    ensures
        forall|i: int|
            0 <= i < SIZE ==> #[trigger] r@[i] == slot(
                pieces(trimmed(line@), '-').map_values(|t: Seq<char>| pawn_or(t, Pawn::Empty)),
                i,
            ),
{
    let tokens = split_into_type(line, '-', Pawn::Empty);
    proposition_of(&tokens)
}

impl Pawn {
    /// The color that `s` names, if any.
    pub fn from_name(s: &str) -> (r: Option<Pawn>)
        ensures
            r == pawn_of_name(s@),
    {
        let chars = chars_of(s);
        let n = chars.len();
        assert(chars@.subrange(0, n as int) =~= s@);
        Pawn::from_chars(&chars, 0, n)
    }
}

impl std::str::FromStr for Pawn {
    type Err = String;

    fn from_str(s: &str) -> (r: Result<Pawn, String>)
        ensures
            r is Err <==> pawn_of_name(s@) is None,
            r matches Ok(p) ==> pawn_of_name(s@) == Some(p),
            r matches Err(m) ==> m@ == "Color:"@ + s@ + " do not exists!"@,
    {
        match Pawn::from_name(s) {
            Some(p) => Ok(p),
            None => {
                let mut message = "Color:".to_owned();
                message.append(s);
                message.append(" do not exists!");
                Err(message)
            },
        }
    }
}

} // verus!
