use mastermind::{
    chars_of, check_matches, is_white, pattern_of_draw, proposition_of, read_proposition, remove_in_vector, split_into_type,
    split_tokens, Pawn, Pattern, SIZE,
};
use std::str::FromStr;

#[test]
fn test_split_into_type() {
    assert_eq!(split_into_type("blue-red", '-', Pawn::Empty), vec![Pawn::Blue, Pawn::Red]);
    assert_eq!(split_into_type("blue-road", '-', Pawn::Empty), vec![Pawn::Blue, Pawn::Empty]);
    assert_eq!(split_into_type("blueroad", '-', Pawn::Empty), vec![Pawn::Empty]);
    assert_eq!(split_into_type("", '-', Pawn::Empty), vec![Pawn::Empty]);
}

#[test]
fn test_new_random_game() {
    // Two draws are permutations of the same five colors and may coincide by
    // chance, so each draw is checked on its own.
    let game1 = Pawn::new_random_game();
    let game2 = Pawn::new_random_game();
    for game in [game1, game2] {
        assert_eq!(game.len(), SIZE);
        for (i, a) in game.iter().enumerate() {
            assert_ne!(*a, Pawn::Empty);
            for b in game.iter().skip(i + 1) {
                assert_ne!(a, b);
            }
        }
    }
}

#[test]
fn test_check_matches() {
    assert_eq!(
        check_matches(
            &[Pawn::Blue, Pawn::Green, Pawn::Yellow, Pawn::Red, Pawn::Pink],
            &[Pawn::Blue, Pawn::Green, Pawn::Yellow, Pawn::Red, Pawn::Pink]
        ),
        (5, 0)
    );

    assert_eq!(
        check_matches(
            &[Pawn::Blue, Pawn::Green, Pawn::Pink, Pawn::Red, Pawn::Yellow],
            &[Pawn::Blue, Pawn::Yellow, Pawn::Green, Pawn::Red, Pawn::Pink]
        ),
        (2, 3)
    );

    assert_eq!(
        check_matches(
            &[Pawn::Blue, Pawn::Green, Pawn::Pink, Pawn::Red, Pawn::Green],
            &[Pawn::Blue, Pawn::Yellow, Pawn::Green, Pawn::Red, Pawn::Yellow]
        ),
        (2, 1)
    );

    assert_eq!(
        check_matches(
            &[Pawn::Blue, Pawn::Green, Pawn::Red, Pawn::Pink, Pawn::Yellow],
            &[Pawn::Green, Pawn::Yellow, Pawn::Blue, Pawn::Red, Pawn::Pink]
        ),
        (0, 5)
    );

    assert_eq!(
        check_matches(
            &[Pawn::Blue, Pawn::Green, Pawn::Pink, Pawn::Yellow, Pawn::Yellow],
            &[Pawn::Green, Pawn::Red, Pawn::Red, Pawn::Red, Pawn::Pink]
        ),
        (0, 2)
    );
}

#[test]
fn test_remove_in_vector() {
    let vec = &mut vec![&1, &2, &3];

    assert_eq!(remove_in_vector(&2, vec), true);
    assert_eq!(*vec, vec![&1, &3]);

    let vec = &mut vec![&1, &2, &3];

    assert_eq!(remove_in_vector(&4, vec), false);
    assert_eq!(*vec, vec![&1, &2, &3]);
}

#[test]
fn remove_in_vector_takes_only_the_first_equal_entry() {
    let vec = &mut vec![&7, &5, &7, &5];
    assert!(remove_in_vector(&5, vec));
    assert_eq!(*vec, vec![&7, &7, &5]);
    let empty: &mut Vec<&i32> = &mut vec![];
    assert!(!remove_in_vector(&1, empty));
    assert!(empty.is_empty());
}

#[test]
fn score_of_a_pattern_against_itself_is_all_black() {
    let patterns: [Pattern; 3] = [
        [Pawn::Red, Pawn::Red, Pawn::Empty, Pawn::Blue, Pawn::Empty],
        [Pawn::Empty; SIZE],
        [Pawn::Pink, Pawn::Yellow, Pawn::Green, Pawn::Blue, Pawn::Red],
    ];
    for p in patterns.iter() {
        assert_eq!(check_matches(p, p), (5, 0));
    }
}

#[test]
fn score_never_exceeds_size() {
    let s = [Pawn::Blue, Pawn::Green, Pawn::Pink, Pawn::Yellow, Pawn::Red];
    let guesses: [Pattern; 4] = [
        [Pawn::Green, Pawn::Green, Pawn::Green, Pawn::Green, Pawn::Green],
        [Pawn::Red, Pawn::Blue, Pawn::Green, Pawn::Pink, Pawn::Yellow],
        [Pawn::Empty, Pawn::Empty, Pawn::Empty, Pawn::Empty, Pawn::Empty],
        [Pawn::Blue, Pawn::Blue, Pawn::Pink, Pawn::Pink, Pawn::Red],
    ];
    let expected = [(1, 0), (0, 5), (0, 0), (3, 0)];
    for (g, e) in guesses.iter().zip(expected.iter()) {
        let (b, w) = check_matches(&s, g);
        assert_eq!((b, w), *e);
        assert!(b as usize + w as usize <= SIZE);
    }
}

#[test]
fn partial_matches_are_symmetric_for_distinct_patterns() {
    let s = [Pawn::Blue, Pawn::Green, Pawn::Pink, Pawn::Yellow, Pawn::Red];
    let g = [Pawn::Green, Pawn::Blue, Pawn::Pink, Pawn::Red, Pawn::Empty];
    assert_eq!(check_matches(&s, &g), (1, 3));
    assert_eq!(check_matches(&g, &s), (1, 3));
}

#[test]
fn empty_guess_slots_never_match_the_secret() {
    let s = [Pawn::Blue, Pawn::Green, Pawn::Pink, Pawn::Yellow, Pawn::Red];
    let g = [Pawn::Empty, Pawn::Empty, Pawn::Blue, Pawn::Empty, Pawn::Empty];
    assert_eq!(check_matches(&s, &g), (0, 1));
}

#[test]
fn secret_uses_each_palette_color_once() {
    let game = Pawn::new_random_game();
    for c in [Pawn::Red, Pawn::Green, Pawn::Yellow, Pawn::Blue, Pawn::Pink] {
        assert_eq!(game.iter().filter(|p| **p == c).count(), 1);
    }
}

#[test]
fn unknown_tokens_become_empty() {
    assert_eq!(split_into_type("road", '-', Pawn::Empty), vec![Pawn::Empty]);
    assert_eq!(split_into_type("Blue-RED-_", '-', Pawn::Empty), vec![Pawn::Empty; 3]);
    assert_eq!(split_into_type("pink--green-", '-', Pawn::Red), vec![
        Pawn::Pink,
        Pawn::Red,
        Pawn::Green,
        Pawn::Red
    ]);
}

#[test]
fn surrounding_whitespace_is_trimmed() {
    assert_eq!(split_into_type("  yellow-pink \n", '-', Pawn::Empty), vec![
        Pawn::Yellow,
        Pawn::Pink
    ]);
    assert_eq!(split_into_type("\t\n", '-', Pawn::Empty), vec![Pawn::Empty]);
    assert_eq!(split_into_type("blue -red", '-', Pawn::Empty), vec![Pawn::Empty, Pawn::Red]);
}

#[test]
fn tokens_past_the_fifth_are_ignored() {
    assert_eq!(
        read_proposition("red-green-yellow-blue-pink-red-red\n"),
        [Pawn::Red, Pawn::Green, Pawn::Yellow, Pawn::Blue, Pawn::Pink]
    );
    let tokens = vec![Pawn::Pink; 8];
    assert_eq!(proposition_of(&tokens), [Pawn::Pink; SIZE]);
}

#[test]
fn missing_tokens_leave_empty_slots() {
    assert_eq!(
        read_proposition("blue-road-red"),
        [Pawn::Blue, Pawn::Empty, Pawn::Red, Pawn::Empty, Pawn::Empty]
    );
    assert_eq!(read_proposition(""), [Pawn::Empty; SIZE]);
}

#[test]
fn color_names_parse_and_print() {
    for c in [Pawn::Red, Pawn::Green, Pawn::Yellow, Pawn::Blue, Pawn::Pink] {
        assert_eq!(Pawn::from_str(c.to_name()), Ok(c));
        assert_eq!(Pawn::from_name(c.to_name()), Some(c));
    }
    assert_eq!(Pawn::Blue.to_name(), "blue");
    assert_eq!(Pawn::Empty.to_name(), "_");
    assert_eq!(Pawn::from_name("_"), None);
    assert_eq!(Pawn::from_str("road"), Err(String::from("Color:road do not exists!")));
}

#[test]
fn split_tokens_reads_a_range_without_trimming() {
    let chars = chars_of(" red-green-x ");
    assert_eq!(chars.len(), 13);
    assert_eq!(split_tokens(&chars, 0, 13, '-', Pawn::Empty), vec![
        Pawn::Empty,
        Pawn::Green,
        Pawn::Empty
    ]);
    assert_eq!(split_tokens(&chars, 1, 10, '-', Pawn::Empty), vec![Pawn::Red, Pawn::Green]);
    assert_eq!(split_tokens(&chars, 4, 4, '-', Pawn::Blue), vec![Pawn::Blue]);
    assert_eq!(split_tokens(&chars, 4, 5, '-', Pawn::Pink), vec![Pawn::Pink, Pawn::Pink]);
}

#[test]
fn from_chars_reads_one_color_name() {
    let chars = chars_of("xyellowx");
    assert_eq!(Pawn::from_chars(&chars, 1, 7), Some(Pawn::Yellow));
    assert_eq!(Pawn::from_chars(&chars, 1, 6), None);
    assert_eq!(Pawn::from_chars(&chars, 0, 7), None);
}

#[test]
fn is_white_agrees_with_char_is_whitespace() {
    for u in 0u32..0x3100 {
        if let Some(c) = char::from_u32(u) {
            assert_eq!(is_white(c), c.is_whitespace(), "code point {:x}", u);
        }
    }
    for c in ['\u{feff}', '\u{200b}', 'a', '-', '\u{10ffff}'] {
        assert_eq!(is_white(c), c.is_whitespace());
    }
}

#[test]
fn from_str_is_exact_and_case_sensitive() {
    for bad in ["Red", "BLUE", " red", "red ", "_", "", "road"] {
        assert_eq!(Pawn::from_str(bad), Err(format!("Color:{} do not exists!", bad)));
    }
    assert_eq!(Pawn::from_str("green"), Ok(Pawn::Green));
    assert_eq!(Pawn::from_str("yellow"), Ok(Pawn::Yellow));
}

#[test]
fn pattern_of_draw_keeps_the_drawn_order() {
    let drawn = vec![Pawn::Pink, Pawn::Red, Pawn::Blue, Pawn::Green, Pawn::Yellow];
    assert_eq!(pattern_of_draw(&drawn), [
        Pawn::Pink,
        Pawn::Red,
        Pawn::Blue,
        Pawn::Green,
        Pawn::Yellow
    ]);
}

#[test]
fn extra_tokens_after_a_full_line_are_ignored() {
    let full = "red-green-yellow-blue-pink";
    let longer = "red-green-yellow-blue-pink-road-red";
    let a = split_into_type(full, '-', Pawn::Empty);
    let b = split_into_type(longer, '-', Pawn::Empty);
    assert_eq!(b.len(), 7);
    assert_eq!(&b[..SIZE], &a[..]);
    assert_eq!(read_proposition(longer), read_proposition(full));
}
