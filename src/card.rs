use vstd::prelude::*;

verus! {

/// The four suits of a standard deck.
#[derive(Clone, Copy, Debug, PartialEq, Eq, Structural)]
pub enum Suit {
    Hearts,
    Diamonds,
    Spades,
    Clubs,
}

/// A playing card; `value` runs from 2 to 14 (11 Jack, 12 Queen, 13 King, 14 Ace).
#[derive(Clone, Copy, Debug, PartialEq, Eq, Structural)]
pub struct Card {
    pub suit: Suit,
    pub value: u8,
}

pub type Hand = Vec<Card>;

/// The queen of spades, worth thirteen points.
pub open spec fn is_queen_of_spades(c: Card) -> bool {
    c.suit == Suit::Spades && c.value == 12
}

/// Penalty points carried by a single card.
pub open spec fn card_points(c: Card) -> nat {
    if c.suit == Suit::Hearts {
        1
    } else if is_queen_of_spades(c) {
        13
    } else {
        0
    }
}

/// A card is valid when its value lies in 2..=14.
pub open spec fn valid_card(c: Card) -> bool {
    2 <= c.value <= 14
}

/// Suit by its position in the deck's enumeration order.
pub open spec fn suit_at(i: int) -> Suit {
    if i == 0 {
        Suit::Hearts
    } else if i == 1 {
        Suit::Diamonds
    } else if i == 2 {
        Suit::Spades
    } else {
        Suit::Clubs
    }
}

/// Position of a suit in the deck's enumeration order.
pub open spec fn suit_pos(s: Suit) -> int {
    match s {
        Suit::Hearts => 0,
        Suit::Diamonds => 1,
        Suit::Spades => 2,
        Suit::Clubs => 3,
    }
}

/// The card at position `i` of the unshuffled deck.
pub open spec fn deck_card(i: int) -> Card {
    Card { suit: suit_at(i / 13), value: (i % 13 + 2) as u8 }
}

/// The 52-card deck in enumeration order: suit by suit, values 2 to 14.
pub open spec fn full_deck() -> Seq<Card> {
    Seq::new(52, |i: int| deck_card(i))
}

/// Digits of a number below 100, most significant first.
pub open spec fn digits(n: nat) -> Seq<char> {
    if n < 10 {
        seq![(n + 48) as char]
    } else {
        seq![((n / 10) + 48) as char, ((n % 10) + 48) as char]
    }
}

pub open spec fn suit_letter(s: Suit) -> char {
    match s {
        Suit::Hearts => 'H',
        Suit::Diamonds => 'D',
        Suit::Spades => 'S',
        Suit::Clubs => 'C',
    }
}

pub open spec fn value_label(v: nat) -> Seq<char> {
    if v == 11 {
        seq!['J']
    } else if v == 12 {
        seq!['Q']
    } else if v == 13 {
        seq!['K']
    } else if v == 14 {
        seq!['A']
    } else {
        digits(v)
    }
}

/// The short name of a card: its value label followed by its suit letter, as "10H" or "QS".
pub open spec fn short_name(c: Card) -> Seq<char> {
    value_label(c.value as nat).push(suit_letter(c.suit))
}

/// Relies on String::push: appends one character at the end.
#[verifier::external_body]
fn push_char(s: &mut String, c: char)
    ensures
        final(s)@ == old(s)@.push(c),
{
    s.push(c)
}

impl Card {
    /// The card's short name, such as "10H", "QS" or "AD".
    pub fn format_short(&self) -> (r: String)
        requires
            self.value < 100,
        ensures
            r@ == short_name(*self),
    {
        let mut s = String::new();
        let v = self.value;
        if v == 11 {
            push_char(&mut s, 'J');
        } else if v == 12 {
            push_char(&mut s, 'Q');
        } else if v == 13 {
            push_char(&mut s, 'K');
        } else if v == 14 {
            push_char(&mut s, 'A');
        } else if v < 10 {
            push_char(&mut s, (v + 48) as char);
        } else {
            push_char(&mut s, (v / 10 + 48) as char);
            push_char(&mut s, (v % 10 + 48) as char);
        }
        let letter = match self.suit {
            Suit::Hearts => 'H',
            Suit::Diamonds => 'D',
            Suit::Spades => 'S',
            Suit::Clubs => 'C',
        };
        push_char(&mut s, letter);
        assert(s@ =~= short_name(*self));
        s
    }
}

/// The 52 cards in enumeration order, one per suit and value.
pub fn generate_deck() -> (deck: Vec<Card>)
    ensures
        deck@ == full_deck(),
{
    let mut deck: Vec<Card> = Vec::new();
    let suits = [Suit::Hearts, Suit::Diamonds, Suit::Spades, Suit::Clubs];
    let mut s: usize = 0;
    while s < 4
        invariant
            s <= 4,
            suits@ == seq![Suit::Hearts, Suit::Diamonds, Suit::Spades, Suit::Clubs],
            deck@.len() == 13 * s,
            forall|i: int| 0 <= i < deck@.len() ==> deck@[i] == deck_card(i),
        decreases 4 - s,
    {
        let mut value: u8 = 2;
        while value <= 14
            invariant
                s < 4,
                2 <= value <= 15,
                suits@ == seq![Suit::Hearts, Suit::Diamonds, Suit::Spades, Suit::Clubs],
                deck@.len() == 13 * s + (value - 2),
                forall|i: int| 0 <= i < deck@.len() ==> deck@[i] == deck_card(i),
            decreases 15 - value,
        {
            proof {
                let i = deck@.len() as int;
                assert(i / 13 == s as int && i % 13 == value - 2) by (nonlinear_arith)
                    requires i == 13 * s + (value - 2), 0 <= value - 2 < 13;
                assert(suits@[s as int] == suit_at(s as int));
            }
            deck.push(Card { suit: suits[s], value });
            value = value + 1;
        }
        s = s + 1;
    }
    assert(deck@ =~= full_deck());
    deck
}

} // verus!
