use rokumon::board::Layout;
use rokumon::card::{Deck, DiceColor, Die};
use rokumon::coord::{Coord, UserCoord};
use rokumon::game::{Game, GameMove, GameResult, MoveError, Rules, ValidationError};

use rokumon::card::DiceColor::{Black, Red, White};
use rokumon::game::ValidationError::{
    CannotCover, DieCovered, FightDisabled, GameOver, NoCardToFight, NoCardToMove, NoDieToMove,
    NoSuchCards, NoSuchDie, NoneYours, NotTwoDice, NotYourDie, OffGrid, SameKind,
    SurpriseDisabled, SurpriseUsed, TargetNotEmpty, TargetOccupied, TooFewNeighbours,
};

fn submit() -> GameMove<UserCoord> {
    GameMove::Submit
}

fn place(color: DiceColor, val: u8, row: u8, card: u8) -> GameMove<UserCoord> {
    GameMove::Place(Die::new(color, val), UserCoord::new(row, card))
}

fn fight(row: u8, card: u8) -> GameMove<UserCoord> {
    GameMove::Fight(UserCoord::new(row, card))
}

fn mov(color: DiceColor, val: u8, from: (u8, u8), to: (u8, u8)) -> GameMove<UserCoord> {
    GameMove::Move(
        Die::new(color, val),
        UserCoord::new(from.0, from.1),
        UserCoord::new(to.0, to.1),
    )
}

fn surprise(from: (u8, u8), to: (i8, i8)) -> GameMove<UserCoord> {
    GameMove::Surprise(UserCoord::new(from.0, from.1), Coord::new_hex(to.0, to.1))
}

fn apply_moves(game: &mut Game, moves: &[GameMove<UserCoord>]) {
    for m in moves {
        game.apply_user_move(m).unwrap();
    }
}

fn validate(game: &Game, m: &GameMove<UserCoord>) {
    let conv_move = game.convert_move_coords(m).unwrap();
    game.validate_move(&conv_move).unwrap();
}

fn should_fail(game: &Game, m: &GameMove<UserCoord>) {
    let conv_move = game.convert_move_coords(m).unwrap();
    assert!(game.validate_move(&conv_move).is_err());
}

#[test]
fn game_test_validity_of_place() {
    let game = Game::new(Layout::Bricks7, Deck::seven_shuffled(), Default::default());

    let d = Die::new;
    let c = Coord::new_hex;

    // Positive test cases.
    game.validate_move(&GameMove::Place(d(Red, 2), c(0, 0))).unwrap();
    game.validate_move(&GameMove::Place(d(Red, 4), c(0, 0))).unwrap();
    game.validate_move(&GameMove::Place(d(Red, 6), c(0, 0))).unwrap();
    game.validate_move(&GameMove::Place(d(Red, 6), c(1, 0))).unwrap();
    game.validate_move(&GameMove::Place(d(Red, 6), c(2, -1))).unwrap();

    // No dice like this in Player 1's stock.
    assert!(game.validate_move(&GameMove::Place(d(Red, 5), c(0, 0))).is_err());
    assert!(game.validate_move(&GameMove::Place(d(Black, 1), c(0, 0))).is_err());

    // No card there.
    assert!(game.validate_move(&GameMove::Place(d(Red, 6), c(-1, 0))).is_err());
}

#[test]
fn game_test_validity_of_surprise() {
    let game = Game::new(Layout::Bricks7, Deck::seven_shuffled(), Default::default());
    let c = Coord::new_hex;
    let s = |from: Coord, to: Coord| GameMove::Surprise(from, to);

    // Positive test cases.
    game.validate_move(&s(c(0, 0), c(1, 1))).unwrap();
    game.validate_move(&s(c(0, 0), c(2, 1))).unwrap();
    game.validate_move(&s(c(0, 0), c(2, -2))).unwrap();
    game.validate_move(&s(c(0, 0), c(4, -1))).unwrap();
    game.validate_move(&s(c(0, 0), c(3, -2))).unwrap();

    game.validate_move(&s(c(1, 0), c(0, -1))).unwrap();
    game.validate_move(&s(c(1, 0), c(2, 1))).unwrap();
    game.validate_move(&s(c(1, 0), c(2, -2))).unwrap();
    game.validate_move(&s(c(1, 0), c(4, -1))).unwrap();
    game.validate_move(&s(c(1, 0), c(3, -2))).unwrap();

    game.validate_move(&s(c(1, -1), c(0, 1))).unwrap();
    game.validate_move(&s(c(1, -1), c(1, 1))).unwrap();
    game.validate_move(&s(c(1, -1), c(2, 1))).unwrap();
    game.validate_move(&s(c(1, -1), c(4, -1))).unwrap();
    game.validate_move(&s(c(1, -1), c(3, -2))).unwrap();

    game.validate_move(&s(c(2, -1), c(0, -1))).unwrap();
    game.validate_move(&s(c(2, -1), c(0, 1))).unwrap();
    game.validate_move(&s(c(2, -1), c(1, 1))).unwrap();
    game.validate_move(&s(c(2, -1), c(2, 1))).unwrap();
    game.validate_move(&s(c(2, -1), c(4, -1))).unwrap();

    // Can't reposition to the same spot.
    assert!(game.validate_move(&s(c(0, 0), c(0, 0))).is_err());
    assert!(game.validate_move(&s(c(1, 0), c(1, 0))).is_err());

    // Not enough neighbours.
    assert!(game.validate_move(&s(c(0, 0), c(0, 1))).is_err());
    assert!(game.validate_move(&s(c(0, 0), c(0, -1))).is_err());
    assert!(game.validate_move(&s(c(1, 0), c(1, 1))).is_err());
    assert!(game.validate_move(&s(c(1, 0), c(0, 1))).is_err());
    assert!(game.validate_move(&s(c(1, -1), c(0, -1))).is_err());
    assert!(game.validate_move(&s(c(1, -1), c(2, -2))).is_err());
    assert!(game.validate_move(&s(c(2, -1), c(3, -2))).is_err());
    assert!(game.validate_move(&s(c(2, -1), c(2, -2))).is_err());

    // Can't start from empty spot.
    assert!(game.validate_move(&s(c(3, 3), c(0, 1))).is_err());
}

#[test]
fn test_validity_of_move() {
    let layout = Layout::Bricks7;
    let deck = Deck::ordered("gggjjjj").unwrap();

    let mut game = Game::new(layout.clone(), deck.clone(), Default::default());
    apply_moves(&mut game, &[place(Red, 2, 1, 1), place(Black, 1, 2, 1)]);

    // Positive test cases.
    validate(&game, &mov(Red, 2, (1, 1), (2, 1)));
    validate(&game, &mov(Red, 2, (1, 1), (2, 2)));
    validate(&game, &mov(Red, 2, (1, 1), (2, 3)));
    validate(&game, &mov(Red, 2, (1, 1), (2, 4)));

    // Can't move opponents dice.
    should_fail(&game, &mov(Black, 1, (2, 1), (1, 3)));

    // Can't move to the same card kind.
    should_fail(&game, &mov(Red, 2, (1, 1), (1, 2)));
    should_fail(&game, &mov(Red, 2, (1, 1), (1, 3)));

    // No dice present on the `from` card.
    should_fail(&game, &mov(Red, 2, (1, 2), (2, 1)));

    // Wrong die.
    should_fail(&game, &mov(Red, 1, (1, 1), (2, 1)));

    let mut game = Game::new(layout.clone(), deck.clone(), Default::default());
    apply_moves(
        &mut game,
        &[place(Red, 2, 1, 1), place(Black, 1, 2, 1), mov(Red, 2, (1, 1), (2, 1))],
    );

    // Die shouldn't be covered.
    should_fail(&game, &mov(Black, 1, (2, 1), (1, 2)));
}

#[test]
fn game_test_apply_move() {
    let c = Coord::new_hex;

    // Submit leads to loss.
    let mut game = Game::new(Layout::Bricks7, Deck::seven_shuffled(), Default::default());
    assert_eq!(game.result, GameResult::InProgress);
    apply_moves(&mut game, &[submit()]);
    assert_eq!(game.result, GameResult::SecondPlayerWon);

    // Submit leads to loss #2.
    let mut game = Game::new(Layout::Bricks7, Deck::seven_shuffled(), Default::default());
    apply_moves(&mut game, &[place(Red, 2, 1, 1), submit()]);
    assert_eq!(game.result, GameResult::FirstPlayerWon);

    let layout = Layout::Bricks7;
    let deck = Deck::ordered("gggjjjj").unwrap();

    // Fight reduces number of dice on cards.
    let mut game = Game::new(layout.clone(), deck.clone(), Default::default());
    apply_moves(
        &mut game,
        &[
            place(Red, 2, 1, 1),
            place(Black, 1, 2, 1),
            mov(Red, 2, (1, 1), (2, 1)),
            fight(2, 1),
        ],
    );
    let card = game.board.card_at(&c(0, 0)).unwrap();
    assert_eq!(card.dice.len(), 1);
    assert_eq!(card.dice[0].value, 2);

    // Fight reduces number of dice on cards.
    // White 1 beats red 6.
    let mut game = Game::new(layout.clone(), deck.clone(), Default::default());
    apply_moves(
        &mut game,
        &[
            place(Red, 6, 1, 1),
            place(White, 1, 2, 1),
            mov(Red, 6, (1, 1), (2, 1)),
            fight(2, 1),
        ],
    );
    let card = game.board.card_at(&c(0, 0)).unwrap();
    assert_eq!(card.dice.len(), 1);
    assert_eq!(card.dice[0].value, 1);

    // Simplest 3-in-a-row win.
    let mut game = Game::new(layout.clone(), deck.clone(), Default::default());
    apply_moves(
        &mut game,
        &[
            place(Red, 6, 1, 1),
            place(White, 1, 2, 1),
            place(Red, 4, 1, 2),
            place(Black, 3, 2, 2),
            place(Red, 2, 1, 3),
        ],
    );
    assert_eq!(game.result, GameResult::FirstPlayerWon);

    // 3-in-a-row doesn't count if it's adjacent.
    let mut game = Game::new(layout.clone(), deck.clone(), Default::default());
    apply_moves(
        &mut game,
        &[
            place(Red, 6, 2, 1),
            place(White, 1, 1, 1),
            place(Red, 4, 2, 2),
            place(Black, 3, 1, 2),
            place(Red, 2, 2, 4),
        ],
    );
    assert_eq!(game.result, GameResult::InProgress);

    // 3-in-a-row for newly built line.
    let mut game = Game::new(layout.clone(), deck.clone(), Default::default());
    apply_moves(
        &mut game,
        &[
            place(Red, 6, 1, 1),
            place(White, 1, 2, 2),
            place(Red, 4, 2, 1),
            surprise((2, 4), (2, -2)),
            place(Red, 2, 1, 1),
        ],
    );
    assert_eq!(game.result, GameResult::FirstPlayerWon);

    // Uncovering a die with 3-in-a-row leads to win.
    let mut game = Game::new(layout.clone(), deck.clone(), Default::default());
    apply_moves(
        &mut game,
        &[
            place(Red, 6, 2, 1),
            place(White, 1, 1, 1),
            place(Red, 4, 2, 2),
            mov(White, 1, (1, 1), (2, 2)),
            place(Red, 2, 2, 3),
        ],
    );
    assert_eq!(game.result, GameResult::InProgress);
    game.apply_user_move(&mov(White, 1, (2, 2), (1, 1))).unwrap();
    assert_eq!(game.result, GameResult::FirstPlayerWon);

    // No move between the same card kinds is allowed.
    let mut game = Game::new(layout.clone(), deck.clone(), Default::default());
    apply_moves(&mut game, &[place(Red, 6, 2, 1), place(White, 1, 1, 1)]);
    assert!(game.apply_user_move(&mov(Red, 6, (2, 1), (2, 2))).is_err());

    // Simplest 3-in-a-stack win.
    let mut game = Game::new(layout.clone(), deck.clone(), Default::default());
    apply_moves(
        &mut game,
        &[
            place(Red, 6, 2, 1),
            place(White, 1, 2, 2),
            place(Red, 4, 1, 1),
            place(Black, 1, 1, 2),
            mov(Red, 4, (1, 1), (2, 1)),
            mov(Black, 1, (1, 2), (2, 2)),
            place(Red, 2, 1, 1),
            place(Black, 3, 1, 2),
        ],
    );
    assert_eq!(game.result, GameResult::InProgress);
    game.apply_user_move(&mov(Red, 2, (1, 1), (2, 1))).unwrap();
    assert_eq!(game.result, GameResult::FirstPlayerWon);

    // Simultaneous 3-in-a-row for both players.
    // (plus a stack and actually 4-in-a-row)
    let deck = Deck::ordered("gggjjjg").unwrap();
    let mut game = Game::new(layout, deck, Default::default());
    apply_moves(
        &mut game,
        &[
            place(Red, 2, 2, 1),
            place(Black, 1, 1, 1),
            place(Red, 2, 2, 2),
            mov(Black, 1, (1, 1), (2, 2)),
            place(Red, 4, 2, 3),
            place(Black, 3, 1, 3),
            place(Red, 6, 2, 4),
            place(Black, 3, 1, 1),
            mov(Red, 6, (2, 4), (2, 3)),
        ],
    );
    assert_eq!(game.result, GameResult::InProgress);
    game.apply_user_move(&mov(Black, 1, (2, 2), (1, 2))).unwrap();
    assert_eq!(game.result, GameResult::FirstPlayerWon);
}

#[test]
fn game_test_move_gen() {
    let deck = Deck::ordered("gggjjjj").unwrap();
    let mut game = Game::new(Layout::Bricks7, deck, Default::default());
    assert_eq!(game.generate_moves().len(), 56);
    apply_moves(&mut game, &[place(Red, 2, 2, 1)]);
    assert_eq!(game.generate_moves().len(), 59);
    apply_moves(&mut game, &[place(Black, 1, 1, 1)]);
    assert_eq!(game.generate_moves().len(), 53);
}

#[test]
fn game_test_applied_moved_to_finished_game_bug() {
    let deck = Deck::ordered("gggjjjj").unwrap();
    let mut game = Game::new(Layout::Bricks7, deck, Default::default());
    apply_moves(
        &mut game,
        &[
            place(Red, 2, 2, 3),
            place(Black, 3, 2, 1),
            place(Red, 6, 2, 4),
            place(Black, 5, 1, 2),
            place(Red, 4, 1, 3),
            mov(Black, 5, (1, 2), (2, 1)),
            mov(Red, 4, (1, 3), (2, 2)),
        ],
    );
    assert_eq!(game.result, GameResult::FirstPlayerWon);
}

#[test]
fn test_loss_when_no_possible_moves() {
    let deck = Deck::ordered("jggjgjj").unwrap();
    let mut game = Game::new(Layout::Bricks7, deck, Rules::new(false, false));

    apply_moves(
        &mut game,
        &[
            place(Red, 2, 2, 3),
            place(Black, 1, 1, 2),
            mov(Red, 2, (2, 3), (1, 2)),
            place(Black, 1, 1, 1),
            place(Red, 2, 2, 3),
            place(Black, 1, 1, 3),
            place(Red, 2, 2, 2),
            mov(Black, 1, (1, 3), (2, 3)),
            mov(Red, 2, (2, 2), (1, 1)),
            place(Black, 1, 1, 3),
            place(Red, 2, 2, 2),
            mov(Black, 1, (1, 3), (2, 1)),
            mov(Red, 2, (2, 2), (2, 1)),
            place(Black, 1, 2, 2),
            mov(Red, 2, (1, 1), (2, 2)),
            mov(Black, 1, (1, 1), (1, 3)),
            mov(Red, 2, (2, 1), (1, 3)),
        ],
    );

    assert_eq!(game.generate_moves().len(), 0);
    assert_eq!(game.result, GameResult::FirstPlayerWon);
}

#[test]
fn submit_as_first_move_loses() {
    let deck = Deck::ordered("gggjjjj").unwrap();
    let mut game = Game::new(Layout::Bricks7, deck, Default::default());
    let fight_result = game.apply_move(&GameMove::Submit).unwrap();
    assert_eq!(fight_result, None);
    assert_eq!(game.result, GameResult::SecondPlayerWon);
    assert!(game.is_game_over());
    assert!(!game.player1_moves);
    assert_eq!(game.history, vec![GameMove::Submit]);
    assert_eq!(game.ply_to_be_played(), 1);
    assert_eq!(game.generate_moves().len(), 0);
    assert_eq!(game.validate_move(&GameMove::Submit), Err(GameOver));
}

#[test]
fn fight_leaves_the_winner_on_the_card() {
    let deck = Deck::ordered("gggjjjj").unwrap();
    let mut game = Game::new(Layout::Bricks7, deck, Default::default());
    apply_moves(
        &mut game,
        &[
            place(Red, 2, 1, 1),
            place(Black, 1, 2, 1),
            mov(Red, 2, (1, 1), (2, 1)),
        ],
    );
    let outcome = game.apply_user_move(&fight(2, 1)).unwrap().unwrap();
    assert_eq!(outcome.losing_die, Die::new(Black, 1));
    assert_eq!(outcome.losing_position, rokumon::game::ZIndex::Bottom);
    let card = game.board.card_at(&Coord::new_hex(0, 0)).unwrap();
    assert_eq!(card.dice, vec![Die::new(Red, 2)]);
    // The loser is back in its owner's stock, at its place in the order.
    assert_eq!(
        game.player(false).dice(),
        &vec![
            Die::new(Black, 1),
            Die::new(Black, 3),
            Die::new(Black, 3),
            Die::new(Black, 5),
            Die::new(White, 1),
        ]
    );
}

#[test]
fn each_validation_error_has_an_input() {
    let c = Coord::new_hex;
    let d = Die::new;
    let deck = Deck::ordered("gggjjjj").unwrap();
    let verdict = |game: &Game, m: GameMove<Coord>| game.validate_move(&m).unwrap_err();

    let game = Game::new(Layout::Bricks7, deck.clone(), Rules::new(false, false));
    assert_eq!(verdict(&game, GameMove::Fight(c(0, 0))), FightDisabled);
    assert_eq!(verdict(&game, GameMove::Surprise(c(0, 0), c(1, 1))), SurpriseDisabled);

    let mut game = Game::new(Layout::Bricks7, deck.clone(), Default::default());
    assert_eq!(verdict(&game, GameMove::Place(d(Red, 5), c(0, 0))), NoSuchDie);
    assert_eq!(verdict(&game, GameMove::Place(d(Red, 2), c(-1, 0))), TargetNotEmpty);
    assert_eq!(verdict(&game, GameMove::Move(d(Red, 2), c(0, 0), c(5, 5))), NoSuchCards);
    assert_eq!(verdict(&game, GameMove::Move(d(Red, 2), c(0, 0), c(1, -1))), NoDieToMove);
    assert_eq!(verdict(&game, GameMove::Fight(c(5, 5))), NoCardToFight);
    assert_eq!(verdict(&game, GameMove::Fight(c(0, 0))), NotTwoDice);
    assert_eq!(verdict(&game, GameMove::Surprise(c(5, 5), c(1, 1))), NoCardToMove);
    assert_eq!(verdict(&game, GameMove::Surprise(c(0, 0), c(1, 0))), TargetOccupied);
    assert_eq!(
        verdict(&game, GameMove::Surprise(c(0, 0), Coord { x: 1, y: 1, z: 5 })),
        OffGrid
    );
    assert_eq!(verdict(&game, GameMove::Surprise(c(0, 0), c(0, 1))), TooFewNeighbours);

    // Red 2 at <0,0,0> (jade), black 1 at <1,-1,0> (gold).
    game.apply_move(&GameMove::Place(d(Red, 2), c(0, 0))).unwrap();
    assert_eq!(verdict(&game, GameMove::Place(d(Black, 1), c(0, 0))), TargetNotEmpty);
    game.apply_move(&GameMove::Place(d(Black, 1), c(1, -1))).unwrap();
    assert_eq!(verdict(&game, GameMove::Move(d(Red, 4), c(0, 0), c(1, -1))), DieCovered);
    assert_eq!(verdict(&game, GameMove::Move(d(Black, 1), c(1, -1), c(0, 0))), NotYourDie);
    assert_eq!(verdict(&game, GameMove::Move(d(Red, 2), c(0, 0), c(1, 0))), SameKind);
    // Red covers black, black covers both with a second die from elsewhere:
    // the stack of red over black cannot be covered by red again.
    game.apply_move(&GameMove::Move(d(Red, 2), c(0, 0), c(1, -1))).unwrap();
    game.apply_move(&GameMove::Place(d(Black, 3), c(0, 0))).unwrap();
    game.apply_move(&GameMove::Place(d(Red, 4), c(1, 0))).unwrap();
    assert_eq!(verdict(&game, GameMove::Fight(c(0, 0))), NotTwoDice);
    assert_eq!(verdict(&game, GameMove::Move(d(Black, 3), c(0, 0), c(1, -1))), CannotCover);
    game.apply_move(&GameMove::Surprise(c(3, 0), c(0, 1))).unwrap();
    game.apply_move(&GameMove::Place(d(Red, 2), c(2, -1))).unwrap();
    assert_eq!(verdict(&game, GameMove::Surprise(c(0, 1), c(3, 0))), SurpriseUsed);
    // Two red dice on one card: black has nothing to fight for there.
    game.apply_move(&GameMove::Place(d(Black, 3), c(2, 0))).unwrap();
    game.apply_move(&GameMove::Move(d(Red, 2), c(2, -1), c(1, 0))).unwrap();
    assert_eq!(verdict(&game, GameMove::Fight(c(1, 0))), NoneYours);

    game.apply_move(&GameMove::Submit).unwrap();
    assert_eq!(verdict(&game, GameMove::Place(d(Red, 6), c(3, -1))), GameOver);
}

#[test]
fn apply_user_move_tells_conversion_from_validation() {
    let deck = Deck::ordered("gggjjjj").unwrap();
    let mut game = Game::new(Layout::Bricks7, deck, Default::default());
    assert_eq!(
        game.apply_user_move(&place(Red, 2, 3, 1)),
        Err(MoveError::Conversion(rokumon::convert::ConversionError::RowOutOfBounds(3)))
    );
    assert_eq!(
        game.apply_user_move(&place(Red, 5, 1, 1)),
        Err(MoveError::Validation(NoSuchDie))
    );
    assert_eq!(game.ply_to_be_played(), 0);
}

#[test]
fn undo_restores_the_game() {
    let deck = Deck::ordered("gggjjjj").unwrap();
    let mut game = Game::new(Layout::Bricks7, deck, Default::default());
    apply_moves(
        &mut game,
        &[
            place(Red, 2, 1, 1),
            place(Black, 1, 2, 1),
            mov(Red, 2, (1, 1), (2, 1)),
        ],
    );
    for m in game.generate_moves() {
        let before = game.defining_features();
        let triples = game.board.adj_triples_iter().clone();
        let result = game.result;
        let history = game.history.clone();
        let fight_result = game.apply_move_unchecked(&m);
        assert_eq!(game.history.len(), history.len() + 1);
        game.undo_move(&m, fight_result);
        assert_eq!(game.defining_features(), before, "after {:?}", m);
        assert_eq!(game.board.adj_triples_iter(), &triples);
        assert_eq!(game.result, result);
        assert_eq!(game.history, history);
    }
}

#[test]
fn generated_moves_are_exactly_the_valid_ones_in_a_small_position() {
    let deck = Deck::ordered("gggjjjj").unwrap();
    let mut game = Game::new(Layout::Bricks7, deck, Default::default());
    apply_moves(&mut game, &[place(Red, 2, 2, 1), place(Black, 1, 1, 1)]);
    let moves = game.generate_moves();
    for m in &moves {
        assert_eq!(game.validate_move(m), Ok(()));
        assert_ne!(*m, GameMove::Submit);
    }
    let positions = game.board.coords_iter();
    let dice = [Die::new(Red, 2), Die::new(Red, 4), Die::new(Red, 6), Die::new(Black, 1)];
    let mut valid = 0;
    for from in &positions {
        for to in &positions {
            for die in &dice {
                let m = GameMove::Move(*die, *from, *to);
                if game.validate_move(&m).is_ok() {
                    assert!(moves.contains(&m));
                    valid += 1;
                }
            }
        }
        for die in &dice {
            let m = GameMove::Place(*die, *from);
            if game.validate_move(&m).is_ok() {
                assert!(moves.contains(&m));
                valid += 1;
            }
        }
        for x in -3..8 {
            for y in -4..4 {
                let m = GameMove::Surprise(*from, Coord::new_hex(x, y));
                if game.validate_move(&m).is_ok() {
                    assert!(moves.contains(&m));
                    valid += 1;
                }
            }
        }
        assert!(game.validate_move(&GameMove::Fight(*from)).is_err());
    }
    assert_eq!(valid, 53);
    assert_eq!(moves.len(), 53);
}

#[test]
fn random_move_is_one_of_the_generated_moves() {
    let deck = Deck::ordered("gggjjjj").unwrap();
    let game = Game::new(Layout::Bricks7, deck, Default::default());
    let moves = game.generate_moves();
    for _ in 0..20 {
        assert!(moves.contains(&game.random_move()));
    }
}

#[test]
fn new_game_starts_with_the_documented_stocks() {
    let deck = Deck::ordered("gggjjjj").unwrap();
    let game = Game::new(Layout::Bricks7, deck.clone(), Rules::new(true, true));
    let d = Die::new;
    assert_eq!(game.player(true).dice(), &vec![d(Red, 2), d(Red, 2), d(Red, 4), d(Red, 6)]);
    assert_eq!(
        game.player(false).dice(),
        &vec![d(Black, 1), d(Black, 3), d(Black, 3), d(Black, 5), d(White, 1)]
    );
    assert_eq!(game.current_player().dice(), game.player(true).dice());
    assert_eq!(game.current_player().name(), "Player 1");
    assert_eq!(game.current_player_surprises(), 0);
    let game = Game::new(Layout::Bricks7, deck, Rules::new(false, true));
    assert_eq!(game.player(true).dice(), &vec![d(Red, 2); 4]);
    assert_eq!(game.player(false).dice(), &vec![d(Black, 1); 5]);
    assert_eq!(Rules::default(), Rules::new(true, true));
}

#[test]
fn moves_given_as_text_are_read_converted_and_applied() {
    let deck = Deck::ordered("gggjjjj").unwrap();
    let mut game = Game::new(Layout::Bricks7, deck, Default::default());
    assert_eq!(game.apply_move_str("place r2 at r1c1"), Ok(None));
    assert_eq!(game.apply_move_str("place b1 at r2c1"), Ok(None));
    assert_eq!(game.apply_move_str("move r2 from r1c1 to r2c1"), Ok(None));
    assert_eq!(game.apply_move_str("jump"), Err(MoveError::Syntax));
    assert_eq!(
        game.apply_move_str("fight at r9c1"),
        Err(MoveError::Conversion(rokumon::convert::ConversionError::RowOutOfBounds(9)))
    );
    assert_eq!(game.apply_move_str("fight at r1c1"), Err(MoveError::Validation(NotTwoDice)));
    let outcome = game.apply_move_str("fight at r2c1").unwrap().unwrap();
    assert_eq!(outcome.losing_die, Die::new(Black, 1));
    let card = game.board.card_at(&Coord::new_hex(0, 0)).unwrap();
    assert_eq!(card.dice.len(), 1);
    assert_eq!(card.dice[0].value, 2);
}

#[test]
fn a_game_is_made_of_its_parts_again() {
    let deck = Deck::ordered("gggjjjj").unwrap();
    let mut game = Game::new(Layout::Bricks7, deck, Default::default());
    apply_moves(
        &mut game,
        &[place(Red, 6, 1, 1), place(White, 1, 2, 1), surprise((2, 4), (2, -2))],
    );
    let board = rokumon::board::Board::from_cards(
        game.board.grid,
        game.board.layout.clone(),
        game.board.cards.clone(),
    )
    .unwrap();
    assert_eq!(board.adj_triples_iter(), game.board.adj_triples_iter());
    let again = Game::from_parts(
        board,
        game.rules,
        rokumon::game::Player::new("Player 1".to_string(), game.player(true).dice()),
        rokumon::game::Player::new("Player 2".to_string(), game.player(false).dice()),
        game.player1_moves,
        (game.player1_surprises, game.player2_surprises),
        game.result,
        game.history.clone(),
    )
    .unwrap();
    assert_eq!(again.defining_features(), game.defining_features());
    assert_eq!(again.generate_moves(), game.generate_moves());

    // A game in progress on a board that shows a win is refused.
    let mut won = Game::new(
        Layout::Bricks7,
        Deck::ordered("gggjjjj").unwrap(),
        Default::default(),
    );
    apply_moves(
        &mut won,
        &[
            place(Red, 6, 1, 1),
            place(White, 1, 2, 1),
            place(Red, 4, 1, 2),
            place(Black, 3, 2, 2),
            place(Red, 2, 1, 3),
        ],
    );
    let parts = |result: GameResult, surprises: (u8, u8)| {
        Game::from_parts(
            won.board.clone(),
            won.rules,
            won.player(true).clone(),
            won.player(false).clone(),
            won.player1_moves,
            surprises,
            result,
            won.history.clone(),
        )
    };
    assert_eq!(
        parts(GameResult::InProgress, (0, 0)).err(),
        Some(rokumon::game::InvalidGame::FinishedOnBoard)
    );
    assert_eq!(
        parts(GameResult::FirstPlayerWon, (0, 2)).err(),
        Some(rokumon::game::InvalidGame::TooManySurprises)
    );
    assert!(parts(GameResult::FirstPlayerWon, (0, 1)).is_ok());
}

#[test]
fn players_keep_their_dice_in_order() {
    let d = Die::new;
    let p = rokumon::game::Player::new(
        "Somebody".to_string(),
        &vec![d(White, 1), d(Red, 6), d(Black, 3), d(Red, 2), d(Black, 3)],
    );
    assert_eq!(p.name(), "Somebody");
    assert_eq!(
        p.dice(),
        &vec![d(Red, 2), d(Red, 6), d(Black, 3), d(Black, 3), d(White, 1)]
    );
    assert!(p.has_die(&d(Black, 3)));
    assert!(!p.has_die(&d(Black, 1)));
    let mut p = p;
    assert_eq!(p.remove_die(&d(Black, 3)), Ok(()));
    assert_eq!(p.remove_die(&d(Black, 1)), Err(d(Black, 1)));
    p.add_die(d(Red, 4));
    assert_eq!(p.dice(), &vec![d(Red, 2), d(Red, 4), d(Red, 6), d(Black, 3), d(White, 1)]);
}

#[test]
fn results_and_moves_left() {
    let deck = Deck::ordered("jggjgjj").unwrap();
    let mut game = Game::new(Layout::Bricks7, deck, Rules::new(false, false));
    assert!(game.has_moves(true));
    assert!(game.has_moves(false));
    assert_eq!(game.no_moves(true), GameResult::InProgress);
    assert_eq!(game.result(), GameResult::InProgress);
    assert_eq!(game.three_in_stack(), GameResult::InProgress);
    assert_eq!(game.three_in_a_row(), GameResult::InProgress);
    apply_moves(
        &mut game,
        &[
            place(Red, 2, 2, 3),
            place(Black, 1, 1, 2),
            mov(Red, 2, (2, 3), (1, 2)),
            place(Black, 1, 1, 1),
            place(Red, 2, 2, 3),
            place(Black, 1, 1, 3),
            place(Red, 2, 2, 2),
            mov(Black, 1, (1, 3), (2, 3)),
            mov(Red, 2, (2, 2), (1, 1)),
            place(Black, 1, 1, 3),
            place(Red, 2, 2, 2),
            mov(Black, 1, (1, 3), (2, 1)),
            mov(Red, 2, (2, 2), (2, 1)),
            place(Black, 1, 2, 2),
            mov(Red, 2, (1, 1), (2, 2)),
            mov(Black, 1, (1, 1), (1, 3)),
        ],
    );
    // Before the last move of the game both players can move.
    assert_eq!(game.result, GameResult::InProgress);
    assert!(game.has_moves(true));
    assert!(game.has_moves(false));
    apply_moves(&mut game, &[mov(Red, 2, (2, 1), (1, 3))]);
    // The board shows no win: the second player is left without a move.
    assert_eq!(game.result_without_no_moves(), GameResult::InProgress);
    assert_eq!(game.result, GameResult::FirstPlayerWon);
    assert!(!game.has_moves(false));
    assert_eq!(game.no_moves(false), GameResult::FirstPlayerWon);

    // Three in a stack goes to the owner of the bottom die.
    let mut game = Game::new(
        Layout::Bricks7,
        Deck::ordered("gggjjjj").unwrap(),
        Default::default(),
    );
    apply_moves(
        &mut game,
        &[
            place(Red, 6, 2, 1),
            place(White, 1, 2, 2),
            place(Red, 4, 1, 1),
            place(Black, 1, 1, 2),
            mov(Red, 4, (1, 1), (2, 1)),
            mov(Black, 1, (1, 2), (2, 2)),
            place(Red, 2, 1, 1),
            place(Black, 3, 1, 2),
            mov(Red, 2, (1, 1), (2, 1)),
        ],
    );
    assert_eq!(game.three_in_stack(), GameResult::FirstPlayerWon);
    assert_eq!(game.three_in_a_row(), GameResult::InProgress);
    assert_eq!(game.result_without_no_moves(), GameResult::FirstPlayerWon);
    assert_eq!(game.result, GameResult::FirstPlayerWon);
    // Dice in stock and cards without dice count as moves left, whatever
    // the result: only the generator looks at the result.
    assert!(game.has_moves(false));
    assert_eq!(game.generate_moves().len(), 0);
}

#[test]
fn surprises_reach_every_coordinate_of_the_grid() {
    let h = Coord::new_hex;
    let d = Die::new;
    let layout = Layout::Custom(rokumon::board::Grid::Hex, vec![h(62, 0), h(63, 0), h(63, 1)]);
    let mut game = Game::new(layout, Deck::ordered("gjg").unwrap(), Default::default());
    let surprise = GameMove::Surprise(h(62, 0), h(64, 0));
    assert_eq!(game.validate_move(&surprise), Ok(()));
    assert!(game.generate_moves().contains(&surprise));
    // One neighbour is not enough, and a target off the grid is none.
    assert_eq!(
        game.validate_move(&GameMove::Surprise(h(62, 0), h(64, 1))),
        Err(TooFewNeighbours)
    );
    assert_eq!(
        game.validate_move(&GameMove::Surprise(h(62, 0), Coord { x: 64, y: 0, z: 0 })),
        Err(OffGrid)
    );
    let before = game.defining_features();
    let fight_result = game.apply_move_unchecked(&surprise);
    assert!(game.board.card_at(&h(64, 0)).is_some());
    assert!(game.board.card_at(&h(62, 0)).is_none());
    assert_eq!(game.board.bounding_box(), (63, 64, 0, 1));
    assert_eq!(game.validate_move(&GameMove::Place(d(Black, 1), h(64, 0))), Ok(()));
    game.undo_move(&surprise, fight_result);
    assert_eq!(game.defining_features(), before);

    // At the end of the numbers the generator proposes what there is.
    let layout = Layout::Custom(rokumon::board::Grid::Hex, vec![h(126, 0), h(127, 0), h(127, 1)]);
    let game = Game::new(layout, Deck::ordered("gjg").unwrap(), Default::default());
    let moves = game.generate_moves();
    assert!(moves.contains(&GameMove::Surprise(h(126, 0), h(126, 1))));
    for m in &moves {
        assert_eq!(game.validate_move(m), Ok(()));
    }
    assert_eq!(game.current_player().name(), "Player 1");
    assert_eq!(game.clone().board.layout, game.board.layout);
}
