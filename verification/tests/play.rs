use rokumon::board::Layout;
use rokumon::card::{Deck, DiceColor, Die};
use rokumon::coord::Coord;
use rokumon::game::{Game, GameMove, GameResult, Rules, ValidationError};
use rokumon::play::{Match, RandomAI, Strategy};

fn new_game(rules: Rules) -> Game {
    Game::new(Layout::Bricks7, Deck::ordered("gggjjjj").unwrap(), rules)
}

#[test]
fn random_strategies_play_a_match_to_its_end() {
    for _ in 0..5 {
        let mut m = Match::new(new_game(Rules::new(true, true)));
        let mut first = RandomAI;
        let mut second = RandomAI;
        let mut plies = 0;
        while !m.is_over() {
            let mov = if m.game.player1_moves {
                first.get_move(&m.game)
            } else {
                second.get_move(&m.game)
            };
            assert_eq!(m.play(&mov), Ok(()));
            plies += 1;
            assert!(plies < 100_000);
        }
        assert_eq!(m.game.history.len(), plies);
        assert_eq!(m.positions.len(), plies);
        let outcome = m.outcome();
        if m.draw {
            assert_eq!(outcome, 0);
        } else if m.game.result == GameResult::FirstPlayerWon {
            assert_eq!(outcome, 1);
        } else {
            assert_eq!(m.game.result, GameResult::SecondPlayerWon);
            assert_eq!(outcome, -1);
        }
    }
}

#[test]
fn an_invalid_move_leaves_the_match_as_it_is() {
    let mut m = Match::new(new_game(Rules::default()));
    let bad = GameMove::Place(Die::new(DiceColor::Black, 1), Coord::new_hex(0, 0));
    assert_eq!(m.play(&bad), Err(ValidationError::NoSuchDie));
    assert_eq!(m.positions.len(), 0);
    assert_eq!(m.game.history.len(), 0);
    assert!(!m.is_over());
}

#[test]
fn the_third_occurrence_of_a_position_is_a_draw() {
    let c = Coord::new_hex;
    let red = Die::new(DiceColor::Red, 2);
    let black = Die::new(DiceColor::Black, 1);
    let mut m = Match::new(new_game(Rules::new(false, false)));
    // Red on a jade card, black on a gold card, far apart.
    assert_eq!(m.play(&GameMove::Place(red, c(0, 0))), Ok(()));
    assert_eq!(m.play(&GameMove::Place(black, c(3, -1))), Ok(()));
    // Both dice go to and fro between two cards of different kinds.
    let cycle = [
        GameMove::Move(red, c(0, 0), c(1, -1)),
        GameMove::Move(black, c(3, -1), c(3, 0)),
        GameMove::Move(red, c(1, -1), c(0, 0)),
        GameMove::Move(black, c(3, 0), c(3, -1)),
    ];
    let mut played = 0;
    'rounds: for _ in 0..3 {
        for mov in &cycle {
            assert!(!m.is_over());
            assert_eq!(m.play(mov), Ok(()));
            played += 1;
            if m.draw {
                break 'rounds;
            }
        }
    }
    // The position before the cycle occurs again after each round: for the
    // third time after the second round.
    assert_eq!(played, 8);
    assert!(m.draw);
    assert!(m.is_over());
    assert_eq!(m.game.result, GameResult::InProgress);
    assert_eq!(m.outcome(), 0);
}

#[test]
fn outcome_tells_the_winner() {
    let mut m = Match::new(new_game(Rules::default()));
    assert_eq!(m.play(&GameMove::Submit), Ok(()));
    assert!(m.is_over());
    assert_eq!(m.outcome(), -1);
    let mut m = Match::new(new_game(Rules::default()));
    let red = Die::new(DiceColor::Red, 2);
    assert_eq!(m.play(&GameMove::Place(red, Coord::new_hex(0, 0))), Ok(()));
    assert_eq!(m.play(&GameMove::Submit), Ok(()));
    assert_eq!(m.outcome(), 1);
}
