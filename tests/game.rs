use std::cell::Cell;

use mastermind::colour::{all_colours, Colour};
use mastermind::error::GameError;
use mastermind::generator::{generate_new_pegs, pegs_from_draws};
use mastermind::scoring::{all_distinct, contains_colour, evaluate};
use mastermind::session::{State, Turn};

use Colour::{Blue, Green, Orange, Red, White, Yellow};

fn distinct(v: &[Colour]) -> bool {
    for i in 0..v.len() {
        for j in 0..i {
            if v[i] == v[j] {
                return false;
            }
        }
    }
    true
}

#[test]
fn parses_initial_letters_in_either_case() {
    assert_eq!(Colour::from_str("r"), Ok(Red));
    assert_eq!(Colour::from_str("O"), Ok(Orange));
    assert_eq!(Colour::from_str("blue"), Ok(Blue));
    assert_eq!(Colour::from_str("White"), Ok(White));
    assert_eq!(Colour::from_str("y"), Ok(Yellow));
    assert_eq!(Colour::from_str("G"), Ok(Green));
}

#[test]
fn parse_rejects_unknown_and_empty_tokens() {
    assert_eq!(Colour::from_str("x"), Err(GameError::InvalidColour('x')));
    assert_eq!(Colour::from_str("purple"), Err(GameError::InvalidColour('p')));
    assert_eq!(Colour::from_str(""), Err(GameError::EmptyInput));
    assert_eq!(Colour::from_char('é'), None);
}

#[test]
fn unknown_capital_is_reported_in_lower_case() {
    assert_eq!(Colour::from_str("X"), Err(GameError::InvalidColour('x')));
    assert_eq!(Colour::from_str("X"), Colour::from_str("x"));
    assert_eq!(Colour::from_str("Purple"), Err(GameError::InvalidColour('p')));
    assert_eq!(Colour::from_str("7"), Err(GameError::InvalidColour('7')));
    let mut s = State::with_pegs(vec![Red, Blue], true, None, || {}, || {}).unwrap();
    assert_eq!(s.push_string_input("X"), Err((GameError::InvalidColour('x'), false)));
}

#[test]
fn draws_pick_from_the_palette_with_replacement() {
    assert_eq!(pegs_from_draws(&vec![0, 7, 11, 6], true), vec![Red, Blue, Orange, Red]);
    assert_eq!(pegs_from_draws(&vec![], true), vec![]);
}

#[test]
fn draws_pick_from_the_palette_without_replacement() {
    assert_eq!(pegs_from_draws(&vec![7, 7, 0], false), vec![Blue, Yellow, Red]);
    assert_eq!(pegs_from_draws(&vec![0; 6], false), all_colours());
    assert_eq!(pegs_from_draws(&vec![5, 4, 3, 2, 1, 0], false), vec![Orange, Green, Yellow, White, Blue, Red]);
}

#[test]
fn palette_has_six_distinct_colours() {
    let all = all_colours();
    assert_eq!(all.len(), 6);
    assert!(distinct(&all));
    assert!(all_distinct(&all));
    assert!(contains_colour(&all, Orange));
}

#[test]
fn generated_secrets_have_the_requested_length() {
    for size in 0..=6 {
        for _ in 0..20 {
            assert_eq!(generate_new_pegs(size, true).len(), size);
            let no_repeats = generate_new_pegs(size, false);
            assert_eq!(no_repeats.len(), size);
            assert!(distinct(&no_repeats));
        }
    }
    assert_eq!(generate_new_pegs(10, true).len(), 10);
}

#[test]
fn full_secret_without_repeats_uses_every_colour() {
    let secret = generate_new_pegs(6, false);
    for c in all_colours() {
        assert!(secret.contains(&c));
    }
}

#[test]
fn scoring_does_not_discount_repeated_colours() {
    let secret = vec![Red, Red, Blue, Green];
    let guess = vec![Red, Green, Blue, Red];
    assert_eq!(evaluate(&secret, &guess, true), Ok((2, 2)));
}

#[test]
fn secret_against_itself_is_all_exact() {
    let secret = vec![Red, Blue, Green, Yellow];
    assert_eq!(evaluate(&secret, &secret, false), Ok((4, 0)));
    assert_eq!(evaluate(&secret, &secret, true), Ok((4, 0)));
    let repeats = vec![Red, Red, Red];
    assert_eq!(evaluate(&repeats, &repeats, true), Ok((3, 0)));
}

#[test]
fn repeated_colour_is_rejected_without_duplicates() {
    let secret = vec![Red, Blue, Green];
    assert_eq!(evaluate(&secret, &vec![Red, Red, Blue], false), Err(GameError::DuplicateNotAllowed));
    assert_eq!(evaluate(&secret, &vec![Red, Red, Blue], true), Ok((1, 2)));
}

#[test]
fn scores_stay_within_the_length() {
    let secret = vec![Red, Blue, Green, Yellow];
    let guesses = [
        vec![Yellow, Green, Blue, Red],
        vec![Orange, White, Orange, White],
        vec![Red, Yellow, Green, Blue],
    ];
    let expected = [(0, 4), (0, 0), (2, 2)];
    for (g, e) in guesses.iter().zip(expected.iter()) {
        let (exact, colour_only) = evaluate(&secret, g, true).unwrap();
        assert_eq!((exact, colour_only), *e);
        assert!(exact + colour_only <= secret.len());
    }
}

#[test]
fn construction_fails_with_more_pegs_than_colours() {
    assert!(State::new(7, true, None, || {}, || {}).is_none());
    let s = State::new(6, false, None, || {}, || {}).unwrap();
    assert_eq!(s.pegs().len(), 6);
    assert!(distinct(s.pegs()));
    assert!(State::with_pegs(vec![Red, Red], false, None, || {}, || {}).is_none());
    assert!(State::with_pegs(vec![Red, Red], true, None, || {}, || {}).is_some());
}

#[test]
fn winning_fires_the_hook_once_and_records_the_game() {
    let wins = Cell::new(0u32);
    let losses = Cell::new(0u32);
    let mut s = State::with_pegs(
        vec![Red, Blue, Green],
        false,
        None,
        || wins.set(wins.get() + 1),
        || losses.set(losses.get() + 1),
    )
    .unwrap();
    assert_eq!(s.input_buffer(Blue), Ok(Turn::Pending));
    assert_eq!(s.input_buffer(Green), Ok(Turn::Pending));
    assert_eq!(s.input_buffer(Red), Ok(Turn::Scored(0, 3)));
    assert_eq!(s.previously_chosen().len(), 1);
    assert_eq!(s.push_string_input("rbg"), Ok(true));
    assert_eq!(wins.get(), 1);
    assert_eq!(losses.get(), 0);
    assert_eq!(s.previous_games(), &vec![(vec![Red, Blue, Green], 1, true)]);
    assert!(s.previously_chosen().is_empty());
    assert!(s.buffered_input().is_empty());
    assert_eq!(s.pegs().len(), 3);
    assert!(distinct(s.pegs()));
}

#[test]
fn winning_with_a_fresh_secret() {
    let wins = Cell::new(0u32);
    let mut s = State::new(4, true, Some(10), || wins.set(wins.get() + 1), || {}).unwrap();
    let secret = s.pegs().clone();
    for c in &secret[..3] {
        assert_eq!(s.input_buffer(*c), Ok(Turn::Pending));
    }
    assert_eq!(s.input_buffer(secret[3]), Ok(Turn::Won));
    assert_eq!(wins.get(), 1);
    assert_eq!(s.previous_games(), &vec![(secret, 0, true)]);
}

#[test]
fn exhausting_the_tries_loses() {
    let wins = Cell::new(0u32);
    let losses = Cell::new(0u32);
    let mut s = State::with_pegs(
        vec![Red, Blue],
        true,
        Some(3),
        || wins.set(wins.get() + 1),
        || losses.set(losses.get() + 1),
    )
    .unwrap();
    assert_eq!(s.push_string_input("gg"), Ok(false));
    assert_eq!(s.push_string_input("ww"), Ok(false));
    assert_eq!(losses.get(), 0);
    assert_eq!(s.previously_chosen().len(), 2);
    assert_eq!(s.push_string_input("yy"), Ok(true));
    assert_eq!(losses.get(), 1);
    assert_eq!(wins.get(), 0);
    assert_eq!(s.previous_games(), &vec![(vec![Red, Blue], 2, false)]);
    assert!(s.previously_chosen().is_empty());
}

#[test]
fn loss_reported_by_single_pushes() {
    let mut s = State::with_pegs(vec![Red, Blue], true, Some(1), || {}, || {}).unwrap();
    assert_eq!(s.input_buffer(Green), Ok(Turn::Pending));
    assert_eq!(s.input_buffer(Green), Ok(Turn::Lost));
    assert_eq!(s.previous_games(), &vec![(vec![Red, Blue], 0, false)]);
}

#[test]
fn long_text_completes_one_guess_per_length() {
    let mut s = State::with_pegs(vec![Red, Blue], true, None, || {}, || {}).unwrap();
    assert_eq!(s.push_string_input("gwybY"), Ok(false));
    assert_eq!(s.previously_chosen(), &vec![vec![Green, White], vec![Yellow, Blue]]);
    assert_eq!(s.buffered_input(), &vec![Yellow]);
    assert_eq!(s.matching(Some(0)), Ok((0, 0)));
    assert_eq!(s.matching(Some(1)), Ok((1, 0)));
    assert_eq!(s.matching(None), Ok((0, 0)));
    assert_eq!(s.push_string_input("ORB"), Ok(true));
    assert_eq!(s.previous_games(), &vec![(vec![Red, Blue], 3, true)]);
    assert!(s.buffered_input().is_empty());
}

#[test]
fn parse_error_reports_whether_a_game_ended() {
    let mut s = State::with_pegs(vec![Red, Blue], true, None, || {}, || {}).unwrap();
    assert_eq!(s.push_string_input("gx"), Err((GameError::InvalidColour('x'), false)));
    assert_eq!(s.buffered_input(), &vec![Green]);
    let mut t = State::with_pegs(vec![Red, Blue], true, None, || {}, || {}).unwrap();
    assert_eq!(t.push_string_input("rbq"), Err((GameError::InvalidColour('q'), true)));
    assert_eq!(t.previous_games().len(), 1);
    assert_eq!(t.push_string_input(""), Ok(false));
}

#[test]
fn duplicate_guess_is_rejected_and_not_counted() {
    let mut s = State::with_pegs(vec![Red, Blue, Green], false, Some(5), || {}, || {}).unwrap();
    assert_eq!(s.input_buffer(Yellow), Ok(Turn::Pending));
    assert_eq!(s.input_buffer(Yellow), Ok(Turn::Pending));
    assert_eq!(s.input_buffer(Orange), Err(GameError::DuplicateNotAllowed));
    assert!(s.previously_chosen().is_empty());
    assert!(s.buffered_input().is_empty());
    assert_eq!(s.push_string_input("ryy"), Err((GameError::DuplicateNotAllowed, false)));
    assert_eq!(s.push_string_input("gbr"), Ok(false));
    assert_eq!(s.previously_chosen().len(), 1);
}

#[test]
fn reset_abandons_the_game() {
    let mut s = State::with_pegs(vec![Red, Blue, Green], false, None, || {}, || {}).unwrap();
    assert_eq!(s.push_string_input("ywoy"), Ok(false));
    s.reset();
    assert!(s.previously_chosen().is_empty());
    assert!(s.buffered_input().is_empty());
    assert!(s.previous_games().is_empty());
    assert_eq!(s.pegs().len(), 3);
    assert!(distinct(s.pegs()));
}
