use mastermind::color::{all_colors, Color};
use mastermind::mastermind::{decode_colors, DecodeError, MasterMind};

#[test]
fn good_plus_wrong_is_length() {
    let s = vec![Color::Red, Color::Cyan, Color::White, Color::Orange, Color::Red];
    let g = vec![Color::Red, Color::White, Color::White, Color::Blue, Color::Yellow];
    let good = MasterMind::number_of_well_placed_pawns(&s, &g);
    let wrong = MasterMind::number_of_not_well_placed_pawns(&s, &g);
    assert_eq!(good, 2);
    assert_eq!(wrong, 3);
    assert_eq!(good + wrong, s.len());
}

#[test]
fn exact_match_is_all_good() {
    let s = vec![Color::Purple, Color::Purple, Color::Green, Color::Cyan];
    assert_eq!(MasterMind::number_of_well_placed_pawns(&s, &s), 4);
    assert_eq!(MasterMind::number_of_not_well_placed_pawns(&s, &s), 0);
    let mut game = MasterMind::with_secret(s.clone());
    let res = game.guess(&s);
    assert!(res.valid);
    assert_eq!(res.good, 4);
    assert_eq!(res.wrong, 0);
}

#[test]
fn good_within_bounds() {
    let s = vec![Color::Red, Color::Red, Color::Red];
    let g = vec![Color::Blue, Color::Blue, Color::Blue];
    assert_eq!(MasterMind::number_of_well_placed_pawns(&s, &g), 0);
    assert_eq!(MasterMind::number_of_not_well_placed_pawns(&s, &g), 3);
    let empty: Vec<Color> = vec![];
    assert_eq!(MasterMind::number_of_well_placed_pawns(&empty, &empty), 0);
}

#[test]
fn swapped_middle_scores_two_good_two_wrong() {
    let secret = vec![Color::Red, Color::Green, Color::Blue, Color::Purple];
    let guess = vec![Color::Red, Color::Blue, Color::Green, Color::Purple];
    assert_eq!(MasterMind::number_of_well_placed_pawns(&secret, &guess), 2);
    assert_eq!(MasterMind::number_of_not_well_placed_pawns(&secret, &guess), 2);
    let mut game = MasterMind::with_secret(secret);
    let res = game.guess(&guess);
    assert_eq!(res.good, 2);
    assert_eq!(res.wrong, 2);
    assert!(!res.valid);
    assert_eq!(res.guess, guess);
    assert_eq!(game.tries, 1);
}

#[test]
fn guess_counts_tries() {
    let mut game = MasterMind::with_secret(vec![Color::White, Color::Cyan]);
    assert_eq!(game.tries, 0);
    game.guess(&[Color::White, Color::White]);
    game.guess(&[Color::Cyan, Color::Cyan]);
    let res = game.guess(&[Color::White, Color::Cyan]);
    assert_eq!(game.tries, 3);
    assert!(res.valid);
}

#[test]
fn new_game_has_requested_length() {
    let game = MasterMind::new(6);
    assert_eq!(game.secret_len(), 6);
    assert_eq!(game.tries, 0);
}

#[test]
fn decodes_four_letters() {
    let game = MasterMind::with_secret(vec![Color::Red; 4]);
    assert_eq!(
        game.to_mastermind_colors("RGYB"),
        Ok(vec![Color::Red, Color::Green, Color::Yellow, Color::Blue])
    );
}

#[test]
fn short_input_is_length_mismatch() {
    let game = MasterMind::with_secret(vec![Color::Red; 4]);
    assert_eq!(game.to_mastermind_colors("RG"), Err(DecodeError::LengthMismatch(4)));
}

#[test]
fn unknown_letter_is_reported() {
    let game = MasterMind::with_secret(vec![Color::Red; 4]);
    assert_eq!(game.to_mastermind_colors("RGXY"), Err(DecodeError::UnknownSymbol('X')));
    assert_eq!(game.to_mastermind_colors("RZXY"), Err(DecodeError::UnknownSymbol('Z')));
}

#[test]
fn decoding_ignores_case_and_surrounding_space() {
    let game = MasterMind::with_secret(vec![Color::Red; 8]);
    assert_eq!(
        game.to_mastermind_colors("  rgbpOYWc\n"),
        Ok(vec![
            Color::Red,
            Color::Green,
            Color::Blue,
            Color::Purple,
            Color::Orange,
            Color::Yellow,
            Color::White,
            Color::Cyan
        ])
    );
    assert_eq!(game.to_mastermind_colors(" rgb \n"), Err(DecodeError::LengthMismatch(8)));
}

#[test]
fn decode_counts_characters_not_bytes() {
    assert_eq!(decode_colors(2, &['R', 'é']), Err(DecodeError::UnknownSymbol('é')));
    assert_eq!(decode_colors(2, &['R', 'é', 'G']), Err(DecodeError::LengthMismatch(2)));
    assert_eq!(decode_colors(0, &[]), Ok(vec![]));
}

#[test]
fn color_letters_round_trip() {
    let colors = all_colors();
    assert_eq!(colors.len(), 8);
    for c in colors {
        assert_eq!(Color::from_letter(c.letter()), Some(c));
        assert_eq!(Color::from_letter(c.letter().to_ascii_lowercase()), Some(c));
    }
    assert_eq!(Color::from_letter('x'), None);
    assert_eq!(Color::from_index(0), Color::Red);
    assert_eq!(Color::from_index(4), Color::Orange);
    assert_eq!(Color::from_index(7), Color::Cyan);
    assert_eq!(Color::Purple.letter(), 'P');
}
