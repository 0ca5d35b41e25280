use rokumon::card::DiceColor::{Black, Red, White};
use rokumon::card::{Card, CardKind, Deck, Die, UnrecognizedCard};

#[test]
fn white_one_beats_red_six_in_either_order() {
    let w1 = Die::new(White, 1);
    let r6 = Die::new(Red, 6);
    assert_eq!(Die::compare_dice(w1, r6), (w1, r6, false));
    assert_eq!(Die::compare_dice(r6, w1), (w1, r6, true));
}

#[test]
fn higher_value_wins_and_a_tie_goes_to_the_second_die() {
    let d = Die::new;
    assert_eq!(Die::compare_dice(d(Red, 4), d(Black, 3)), (d(Red, 4), d(Black, 3), false));
    assert_eq!(Die::compare_dice(d(Black, 3), d(Red, 4)), (d(Red, 4), d(Black, 3), true));
    assert_eq!(Die::compare_dice(d(Red, 2), d(Black, 2)), (d(Black, 2), d(Red, 2), true));
    assert_eq!(Die::compare_dice(d(Black, 2), d(Red, 2)), (d(Red, 2), d(Black, 2), true));
    // A white 1 loses to everything else by value.
    assert_eq!(Die::compare_dice(d(White, 1), d(Red, 2)), (d(Red, 2), d(White, 1), true));
    assert_eq!(Die::compare_dice(d(White, 1), d(Black, 6)), (d(Black, 6), d(White, 1), true));
    // Only the white 1 beats the red 6.
    assert_eq!(Die::compare_dice(d(White, 3), d(Red, 6)), (d(Red, 6), d(White, 3), true));
    assert_eq!(Die::compare_dice(d(Black, 1), d(Red, 6)), (d(Red, 6), d(Black, 1), true));
}

#[test]
fn dice_belong_by_color_and_are_ordered_by_color_then_value() {
    assert!(Die::new(Red, 1).belongs_to_player1());
    assert!(!Die::new(Black, 1).belongs_to_player1());
    assert!(!Die::new(White, 1).belongs_to_player1());
    assert!(Die::new(Red, 6) < Die::new(Black, 1));
    assert!(Die::new(Black, 5) < Die::new(White, 1));
    assert!(Die::new(Red, 6).order_key() < Die::new(Black, 1).order_key());
    assert_eq!(Die::new(White, 3).order_key(), 2 * 256 + 3);
}

#[test]
fn card_kinds_are_read_from_characters() {
    for c in ['g', 'G', 'w', 'W'] {
        assert_eq!(CardKind::try_from(c), Ok(CardKind::Gold));
    }
    for c in ['j', 'J', 'b', 'B'] {
        assert_eq!(CardKind::try_from(c), Ok(CardKind::Jade));
    }
    for c in ['f', 'F'] {
        assert_eq!(CardKind::try_from(c), Ok(CardKind::Fort));
    }
    assert_eq!(CardKind::try_from('x'), Err(UnrecognizedCard('x')));
    let card = Card::try_from('j').unwrap();
    assert_eq!(card.kind, CardKind::Jade);
    assert!(card.is_empty());
    assert_eq!(card.top_die(), None);
    assert_eq!(Card::try_from('?'), Err(UnrecognizedCard('?')));
}

#[test]
fn top_die_is_the_last_die() {
    let mut card = Card::new(CardKind::Gold);
    card.dice.push(Die::new(Red, 2));
    card.dice.push(Die::new(Black, 5));
    assert!(!card.is_empty());
    assert_eq!(card.top_die(), Some(&Die::new(Black, 5)));
    assert_eq!(card.clone(), card);
}

#[test]
fn ordered_deck_keeps_the_order_of_the_description() {
    let deck = Deck::ordered("gJf").unwrap();
    assert_eq!(deck.len(), 3);
    assert_eq!(deck.kind_at(0), CardKind::Gold);
    assert_eq!(deck.kind_at(1), CardKind::Jade);
    assert_eq!(deck.kind_at(2), CardKind::Fort);
    assert_eq!(Deck::ordered("").unwrap().len(), 0);
    assert_eq!(Deck::ordered("ggxjy"), Err(UnrecognizedCard('x')));
    assert_eq!(Deck::shuffled("gq"), Err(UnrecognizedCard('q')));
}

fn count(deck: &Deck, kind: CardKind) -> usize {
    (0..deck.len()).filter(|i| deck.kind_at(*i) == kind).count()
}

#[test]
fn shuffled_decks_hold_the_cards_described() {
    for _ in 0..20 {
        let deck = Deck::seven_shuffled();
        assert_eq!(deck.len(), 7);
        assert_eq!(count(&deck, CardKind::Jade), 4);
        assert_eq!(count(&deck, CardKind::Gold), 3);

        let deck = Deck::six_shuffled();
        assert_eq!(deck.len(), 6);
        let jades = count(&deck, CardKind::Jade);
        let golds = count(&deck, CardKind::Gold);
        assert!((jades, golds) == (4, 2) || (jades, golds) == (3, 3));

        let deck = Deck::shuffled("gggfj").unwrap();
        assert_eq!(deck.len(), 5);
        assert_eq!(count(&deck, CardKind::Gold), 3);
        assert_eq!(count(&deck, CardKind::Fort), 1);
        assert_eq!(count(&deck, CardKind::Jade), 1);
    }
}

#[test]
fn shuffling_changes_the_order_sometimes() {
    let ordered = Deck::ordered("jjjjggg").unwrap();
    let mut changed = false;
    for _ in 0..200 {
        if Deck::seven_shuffled() != ordered {
            changed = true;
        }
    }
    assert!(changed);
}
