//! Dice, cards and decks.

use rand::seq::SliceRandom;
use vstd::prelude::*;
use vstd::string::*;

verus! {

/// Possible colors of dice. Red dice are the first player's, black and white
/// dice the second player's.
#[derive(PartialEq, Eq, Structural, PartialOrd, Ord, Copy, Clone, Debug, Hash)]
pub enum DiceColor {
    Red,
    Black,
    White,
}

/// A die in the game: a color and the face value it shows.
#[derive(PartialEq, Eq, Structural, PartialOrd, Ord, Copy, Clone, Debug, Hash)]
pub struct Die {
    pub color: DiceColor,
    pub value: u8,
}

impl DiceColor {
    /// Position of the color in the order Red, Black, White.
    pub open spec fn rank(self) -> int {
        match self {
            DiceColor::Red => 0,
            DiceColor::Black => 1,
            DiceColor::White => 2,
        }
    }
}

impl Die {
    /// Position of the die in the order by color, then value.
    pub open spec fn key(self) -> int {
        self.color.rank() * 256 + self.value
    }

    /// Whether the die is one of the first player's.
    pub open spec fn first_players(self) -> bool {
        self.color == DiceColor::Red
    }

    /// The winner, the loser, and whether the winner is the second argument,
    /// when `d1` lies on top of `d2`.
    ///
    /// The higher value wins and a tie goes to the second die, except that a
    /// white 1 beats a red 6.
    pub open spec fn fight(d1: Die, d2: Die) -> (Die, Die, bool) {
        if d1.color == DiceColor::White && d1.value == 1 && d2.color == DiceColor::Red && d2.value
            == 6 {
            (d1, d2, false)
        } else if d2.color == DiceColor::White && d2.value == 1 && d1.color == DiceColor::Red
            && d1.value == 6 {
            (d2, d1, true)
        } else if d1.value > d2.value {
            (d1, d2, false)
        } else {
            (d2, d1, true)
        }
    }

    /// A die of the given color that shows the given value.
    pub fn new(color: DiceColor, value: u8) -> (d: Die)
        ensures
            d == (Die { color, value }),
    {
        Die { value, color }
    }

    /// Whether the die is one of the first player's.
    pub fn belongs_to_player1(&self) -> (b: bool)
        ensures
            b == self.first_players(),
    {
        self.color == DiceColor::Red
    }

    /// The order key as a machine integer.
    pub fn order_key(&self) -> (k: u16)
        ensures
            k == self.key(),
    {
        let rank: u16 = match self.color {
            DiceColor::Red => 0,
            DiceColor::Black => 1,
            DiceColor::White => 2,
        };
        rank * 256 + self.value as u16
    }

    /// Returns (winner, loser) pair and whether swap happened.
    pub fn compare_dice(d1: Die, d2: Die) -> (r: (Die, Die, bool))
        ensures
            r == Die::fight(d1, d2),
            r.2 ==> r.0 == d2 && r.1 == d1,
            !r.2 ==> r.0 == d1 && r.1 == d2,
    {
        if d1.color == DiceColor::White && d1.value == 1 && d2.color == DiceColor::Red && d2.value
            == 6 {
            (d1, d2, false)
        } else if d2.color == DiceColor::White && d2.value == 1 && d1.color == DiceColor::Red
            && d1.value == 6 {
            (d2, d1, true)
        } else if d1.value > d2.value {
            (d1, d2, false)
        } else {
            (d2, d1, true)
        }
    }
}

/// Dice with the same key are the same die.
pub proof fn lemma_die_key_injective(a: Die, b: Die)
    requires
        a.key() == b.key(),
    ensures
        a == b,
{
}

/// Possible card kinds.
#[derive(PartialEq, Eq, Structural, PartialOrd, Ord, Hash, Copy, Clone, Debug)]
pub enum CardKind {
    Jade,
    Gold,
    Fort,
}

/// A character that names no card kind.
#[derive(PartialEq, Eq, Structural, Copy, Clone, Debug)]
pub struct UnrecognizedCard(pub char);

impl CardKind {
    /// The kind that a character of a deck description stands for.
    pub open spec fn of_char(c: char) -> Option<CardKind> {
        if c == 'g' || c == 'G' || c == 'w' || c == 'W' {
            Some(CardKind::Gold)
        } else if c == 'j' || c == 'J' || c == 'b' || c == 'B' {
            Some(CardKind::Jade)
        } else if c == 'f' || c == 'F' {
            Some(CardKind::Fort)
        } else {
            None
        }
    }

    /// The kind that a character of a deck description stands for.
    pub fn try_from(c: char) -> (r: Result<CardKind, UnrecognizedCard>)
        ensures
            r == match CardKind::of_char(c) {
                Some(k) => Ok::<CardKind, UnrecognizedCard>(k),
                None => Err(UnrecognizedCard(c)),
            },
    {
        if c == 'g' || c == 'G' || c == 'w' || c == 'W' {
            Ok(CardKind::Gold)
        } else if c == 'j' || c == 'J' || c == 'b' || c == 'B' {
            Ok(CardKind::Jade)
        } else if c == 'f' || c == 'F' {
            Ok(CardKind::Fort)
        } else {
            Err(UnrecognizedCard(c))
        }
    }
}

/// A card in the game. It is of certain kind and may have dice on it.
#[derive(PartialEq, Eq, PartialOrd, Ord, Hash, Debug)]
pub struct Card {
    pub kind: CardKind,
    /// The dice are appended to the end: the top-most die, which covers the
    /// others, is the last one.
    pub dice: Vec<Die>,
}

/// What a card is to the rules: its kind and its stack of dice, bottom first.
#[verifier::ext_equal]
pub struct CardView {
    pub kind: CardKind,
    pub dice: Seq<Die>,
}

impl CardView {
    /// The uncovered die, if the card holds any.
    pub open spec fn top(self) -> Option<Die> {
        if self.dice.len() > 0 {
            Some(self.dice.last())
        } else {
            None
        }
    }

    /// The card with one more die on top.
    pub open spec fn pushed(self, d: Die) -> CardView {
        CardView { kind: self.kind, dice: self.dice.push(d) }
    }

    /// The card without its top die.
    pub open spec fn popped(self) -> CardView {
        CardView { kind: self.kind, dice: self.dice.drop_last() }
    }

    /// A card of the given kind without dice.
    pub open spec fn empty(kind: CardKind) -> CardView {
        CardView { kind, dice: Seq::empty() }
    }
}

impl View for Card {
    type V = CardView;

    open spec fn view(&self) -> CardView {
        CardView { kind: self.kind, dice: self.dice@ }
    }
}

impl Card {
    /// A card of the given kind without dice.
    pub fn new(kind: CardKind) -> (c: Card)
        ensures
            c@ == CardView::empty(kind),
    {
        Card { kind, dice: Vec::new() }
    }

    /// The uncovered die, if the card holds any.
    pub fn top_die(&self) -> (d: Option<&Die>)
        ensures
            d == match self@.top() {
                Some(t) => Some(&t),
                None => None,
            },
    {
        let n = self.dice.len();
        if n == 0 {
            None
        } else {
            Some(&self.dice[n - 1])
        }
    }

    /// Whether the card holds no die.
    pub fn is_empty(&self) -> (b: bool)
        ensures
            b == (self@.dice.len() == 0),
    {
        self.dice.len() == 0
    }

    /// The empty card that a character of a deck description stands for.
    pub fn try_from(c: char) -> (r: Result<Card, UnrecognizedCard>)
        ensures
            match CardKind::of_char(c) {
                Some(k) => r is Ok && r->Ok_0@ == CardView::empty(k),
                None => r == Err::<Card, UnrecognizedCard>(UnrecognizedCard(c)),
            },
    {
        match CardKind::try_from(c) {
            Ok(kind) => Ok(Card::new(kind)),
            Err(e) => Err(e),
        }
    }

}

impl Clone for Card {
    fn clone(&self) -> (c: Card)
        ensures
            c@ == self@,
    {
        Card { kind: self.kind, dice: self.dice.clone() }
    }
}

/// Deck is a collection of cards, none of which holds a die yet.
#[derive(PartialEq, Eq, Debug, Clone)]
pub struct Deck {
    kinds: Vec<CardKind>,
}

impl View for Deck {
    type V = Seq<CardKind>;

    closed spec fn view(&self) -> Seq<CardKind> {
        self.kinds@
    }
}

/// Calls `shuffle` of `rand::seq::SliceRandom` on the kinds, with `rand`'s
/// generator of the current thread. Which order comes out is left open: the
/// kinds afterwards are the kinds before, each as often as before.
#[verifier::external_body]
fn shuffle_kinds(kinds: &mut Vec<CardKind>)
    ensures
        final(kinds)@.to_multiset() == old(kinds)@.to_multiset(),
{
    let mut rng = rand::thread_rng();
    kinds.as_mut_slice().shuffle(&mut rng);
}

impl Deck {
    /// The kinds of a standard deck before shuffling: four Jade, three Gold.
    pub open spec fn standard() -> Seq<CardKind> {
        seq![
            CardKind::Jade,
            CardKind::Jade,
            CardKind::Jade,
            CardKind::Jade,
            CardKind::Gold,
            CardKind::Gold,
            CardKind::Gold,
        ]
    }

    /// A deck with cards in order. Cards are specified by a string like
    /// 'JJJGGGG' for 3 Jade cards and 4 Gold cards. They are dealt from the
    /// first to the last to the card positions of the layout.
    ///
    /// Fails on the first character that names no card kind.
    pub fn ordered(descr: &str) -> (r: Result<Deck, UnrecognizedCard>)
        ensures
            match r {
                Ok(d) => d@.len() == descr@.len() && forall|i: int|
                    0 <= i < descr@.len() ==> CardKind::of_char(#[trigger] descr@[i]) == Some(
                        d@[i],
                    ),
                Err(e) => exists|i: int|
                    0 <= i < descr@.len() && e.0 == #[trigger] descr@[i] && CardKind::of_char(
                        descr@[i],
                    ) is None && forall|j: int|
                        0 <= j < i ==> CardKind::of_char(#[trigger] descr@[j]) is Some,
            },
    {
        let n = descr.unicode_len();
        let mut kinds: Vec<CardKind> = Vec::new();
        let mut i: usize = 0;
        while i < n
            invariant
                n == descr@.len(),
                i <= n,
                kinds@.len() == i,
                forall|j: int| 0 <= j < i ==> CardKind::of_char(#[trigger] descr@[j]) == Some(kinds@[j]),
            decreases n - i,
        {
            let c = descr.get_char(i);
            match CardKind::try_from(c) {
                Ok(kind) => {
                    kinds.push(kind);
                },
                Err(e) => {
                    return Err(e);
                },
            }
            i += 1;
        }
        Ok(Deck { kinds })
    }

    /// Shuffled deck defined by a description like 'JJJGGGG'.
    pub fn shuffled(descr: &str) -> (r: Result<Deck, UnrecognizedCard>)
        ensures
            match r {
                Ok(d) => exists|o: Seq<CardKind>|
                    #![trigger o.to_multiset()]
                    d@.to_multiset() == o.to_multiset() && o.len() == descr@.len() && forall|
                        i: int,
                    |
                        0 <= i < descr@.len() ==> CardKind::of_char(#[trigger] descr@[i]) == Some(
                            o[i],
                        ),
                Err(e) => exists|i: int|
                    0 <= i < descr@.len() && e.0 == #[trigger] descr@[i] && CardKind::of_char(
                        descr@[i],
                    ) is None && forall|j: int|
                        0 <= j < i ==> CardKind::of_char(#[trigger] descr@[j]) is Some,
            },
    {
        match Deck::ordered(descr) {
            Ok(deck) => {
                let ghost o = deck@;
                let mut deck = deck;
                deck.shuffle();
                assert(deck@.to_multiset() == o.to_multiset());
                Ok(deck)
            },
            Err(e) => Err(e),
        }
    }

    /// The seven cards of the standard deck in their fixed order.
    fn standard_ordered() -> (d: Deck)
        ensures
            d@ == Deck::standard(),
    {
        let r = Deck::ordered("jjjjggg");
        proof {
            reveal_strlit("jjjjggg");
        }
        match r {
            Ok(d) => {
                proof {
                    let s = "jjjjggg"@;
                    assert(CardKind::of_char(s[0]) == Some(d@[0]));
                    assert(CardKind::of_char(s[1]) == Some(d@[1]));
                    assert(CardKind::of_char(s[2]) == Some(d@[2]));
                    assert(CardKind::of_char(s[3]) == Some(d@[3]));
                    assert(CardKind::of_char(s[4]) == Some(d@[4]));
                    assert(CardKind::of_char(s[5]) == Some(d@[5]));
                    assert(CardKind::of_char(s[6]) == Some(d@[6]));
                    assert(d@ =~= Deck::standard());
                }
                d
            },
            Err(_) => {
                assert(false);
                Deck { kinds: Vec::new() }
            },
        }
    }

    /// A standard deck with 4 Jades and 3 Gold cards which are randomly
    /// shuffled.
    pub fn seven_shuffled() -> (d: Deck)
        ensures
            d@.to_multiset() == Deck::standard().to_multiset(),
            d@.len() == 7,
    {
        let mut deck = Deck::standard_ordered();
        deck.shuffle();
        proof {
            deck@.to_multiset_ensures();
            Deck::standard().to_multiset_ensures();
        }
        deck
    }

    /// A deck with 6 cards selected out of 4 Jade and 3 Gold cards.
    pub fn six_shuffled() -> (d: Deck)
        ensures
            d@.len() == 6,
            exists|k: CardKind| #[trigger] d@.push(k).to_multiset() == Deck::standard().to_multiset(),
    {
        let mut deck = Deck::standard_ordered();
        deck.shuffle();
        proof {
            deck@.to_multiset_ensures();
            Deck::standard().to_multiset_ensures();
        }
        let ghost full = deck@;
        deck.drop_one_card();
        proof {
            assert(deck@.push(full.last()) =~= full);
        }
        deck
    }

    fn shuffle(&mut self)
        ensures
            final(self)@.to_multiset() == old(self)@.to_multiset(),
    {
        shuffle_kinds(&mut self.kinds);
    }

    fn drop_one_card(&mut self)
        requires
            old(self)@.len() > 0,
        ensures
            final(self)@ == old(self)@.drop_last(),
    {
        let n = self.kinds.len();
        self.kinds.truncate(n - 1);
    }

    /// The number of cards in the deck.
    pub fn len(&self) -> (n: usize)
        ensures
            n == self@.len(),
    {
        self.kinds.len()
    }

    /// The kind of the card that is dealt as number `i`, counting from zero.
    pub fn kind_at(&self, i: usize) -> (k: CardKind)
        requires
            i < self@.len(),
        ensures
            k == self@[i as int],
    {
        self.kinds[i]
    }
}

} // verus!
