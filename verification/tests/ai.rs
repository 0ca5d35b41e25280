use rokumon::ai::{
    evaluate_for_first_player, evaluate_for_player, pp_evaluation, AlphaBetaAI, RunCondition,
};
use rokumon::board::Layout;
use rokumon::card::{Deck, DiceColor, Die};
use rokumon::coord::{Coord, UserCoord};
use rokumon::game::{Game, GameMove, GameResult, Rules};

#[test]
fn test_eval() {
    let mut game = Game::new(Layout::Bricks7, Deck::ordered("JJJGGGG").unwrap(), Rules::default());
    assert_eq!(evaluate_for_first_player(&game), 0);
    game.apply_user_move(&GameMove::Place(Die::new(DiceColor::Red, 2), UserCoord::new(1, 2)))
        .unwrap();
    assert_eq!(evaluate_for_first_player(&game), 1);
    game.apply_user_move(&GameMove::Place(Die::new(DiceColor::Black, 3), UserCoord::new(2, 2)))
        .unwrap();
    assert_eq!(evaluate_for_first_player(&game), -1);
}

#[test]
fn covered_dice_count_for_the_player_on_top() {
    let c = Coord::new_hex;
    let d = Die::new;
    let mut game = Game::new(Layout::Bricks7, Deck::ordered("gggjjjj").unwrap(), Rules::default());
    // Red 2 on <1,0,-1>: two lines pass through it.
    game.apply_move(&GameMove::Place(d(DiceColor::Red, 2), c(1, 0))).unwrap();
    assert_eq!(game.board.num_of_adjacent_triples(c(1, 0)), 2);
    assert_eq!(evaluate_for_first_player(&game), 2);
    // Black 1 on <1,-1,0>: one line.
    game.apply_move(&GameMove::Place(d(DiceColor::Black, 1), c(1, -1))).unwrap();
    assert_eq!(game.board.num_of_adjacent_triples(c(1, -1)), 1);
    assert_eq!(evaluate_for_first_player(&game), 1);
    // Red covers black: the card counts for red, once more than its lines.
    game.apply_move(&GameMove::Move(d(DiceColor::Red, 2), c(1, 0), c(1, -1))).unwrap();
    assert_eq!(evaluate_for_first_player(&game), 2);
    assert_eq!(evaluate_for_player(&game, true), 2);
    assert_eq!(evaluate_for_player(&game, false), -2);
}

#[test]
fn a_won_game_is_worth_the_extremes() {
    let mut game = Game::new(Layout::Bricks7, Deck::ordered("gggjjjj").unwrap(), Rules::default());
    game.apply_move(&GameMove::Submit).unwrap();
    assert_eq!(game.result, GameResult::SecondPlayerWon);
    assert_eq!(evaluate_for_first_player(&game), i32::MIN);
    assert_eq!(evaluate_for_player(&game, true), i32::MIN);
    assert_eq!(evaluate_for_player(&game, false), i32::MAX);
    assert!(game.is_upper_bound(i32::MAX, false));
    assert!(!game.is_upper_bound(i32::MIN, false));
    assert!(game.is_lower_bound(i32::MIN, true));
    assert!(!game.is_lower_bound(0, true));
}

#[test]
fn evaluations_are_printed_with_infinities() {
    assert_eq!(pp_evaluation(i32::MAX), "inf");
    assert_eq!(pp_evaluation(i32::MIN), "-inf");
    assert_eq!(pp_evaluation(0), "0");
    assert_eq!(pp_evaluation(-17), "-17");
    assert_eq!(pp_evaluation(i32::MAX - 1), "2147483646");
}

#[test]
fn search_contract_applies_and_scores() {
    let c = Coord::new_hex;
    let mut game = Game::new(Layout::Bricks7, Deck::ordered("gggjjjj").unwrap(), Rules::default());
    let (mine, actions) = game.actions(true);
    assert!(mine);
    assert_eq!(actions, game.generate_moves());
    assert!(!game.actions(false).0);
    let m = GameMove::Place(Die::new(DiceColor::Red, 2), c(1, 0));
    assert!(actions.contains(&m));
    assert_eq!(game.execute(&m, false), -2);
    assert_eq!(game.history, vec![m]);
    assert!(game.actions(false).0);
}

#[test]
fn the_search_stops_by_duration_then_depth_then_completion() {
    assert_eq!(AlphaBetaAI::with_duration(true, 5).run_condition(), RunCondition::Duration(5));
    assert_eq!(AlphaBetaAI::with_depth(false, 3).run_condition(), RunCondition::Depth(3));
    assert_eq!(AlphaBetaAI::to_completion(true).run_condition(), RunCondition::ToCompletion);
    assert_eq!(AlphaBetaAI::with_duration(true, 0).run_condition(), RunCondition::ToCompletion);
    let both = AlphaBetaAI { for_first_player: true, duration: 2, depth: 4 };
    assert_eq!(both.run_condition(), RunCondition::Duration(2));
    assert!(!AlphaBetaAI::with_depth(false, 3).for_first_player);
}
