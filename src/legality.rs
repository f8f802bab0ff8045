use vstd::prelude::*;
use crate::card::{Card, Suit, Hand};

verus! {

/// Outcome of checking a proposed play.
#[derive(Clone, Copy, Debug, PartialEq, Eq, Structural)]
pub enum LegalResult {
    Legal,
    OutOfRange,
    HeartsNotYetBroken,
    MustFollowSuit(Suit),
}

/// Whether the hand holds at least one card of suit `s`.
pub open spec fn has_suit(hand: Seq<Card>, s: Suit) -> bool {
    exists|j: int| 0 <= j < hand.len() && hand[j].suit == s
}

/// Whether playing `c` from `hand` respects the obligation to follow the led suit.
pub open spec fn follows(hand: Seq<Card>, c: Card, led: Option<Suit>) -> bool {
    match led {
        None => true,
        Some(s) => c.suit == s || !has_suit(hand, s),
    }
}

/// Whether the hand holds a non-Heart card that would follow suit.
pub open spec fn has_non_heart_alternative(hand: Seq<Card>, led: Option<Suit>) -> bool {
    exists|j: int| 0 <= j < hand.len() && hand[j].suit != Suit::Hearts && follows(hand, hand[j], led)
}

/// The verdict on playing `hand[idx]`, with the rules applied in order:
/// the index must address a card; the led suit must be followed when possible;
/// a Heart may not be played before hearts are broken unless no non-Heart card
/// could be played instead.
pub open spec fn legality(hand: Seq<Card>, idx: int, hearts_broken: bool, led: Option<Suit>) -> LegalResult {
    if idx < 0 || idx >= hand.len() {
        LegalResult::OutOfRange
    } else if !follows(hand, hand[idx], led) {
        LegalResult::MustFollowSuit(led->Some_0)
    } else if hand[idx].suit == Suit::Hearts && !hearts_broken && has_non_heart_alternative(hand, led) {
        LegalResult::HeartsNotYetBroken
    } else {
        LegalResult::Legal
    }
}

fn hand_has_suit(hand: &Hand, s: Suit) -> (r: bool)
    ensures
        r == has_suit(hand@, s),
{
    let mut j: usize = 0;
    while j < hand.len()
        invariant
            j <= hand@.len(),
            forall|k: int| 0 <= k < j ==> hand@[k].suit != s,
        decreases hand@.len() - j,
    {
        if hand[j].suit == s {
            return true;
        }
        j = j + 1;
    }
    false
}

fn card_follows(hand: &Hand, c: Card, led: Option<Suit>) -> (r: bool)
    ensures
        r == follows(hand@, c, led),
{
    match led {
        None => true,
        Some(s) => c.suit == s || !hand_has_suit(hand, s),
    }
}

fn hand_has_non_heart_alternative(hand: &Hand, led: Option<Suit>) -> (r: bool)
    ensures
        r == has_non_heart_alternative(hand@, led),
{
    let mut j: usize = 0;
    while j < hand.len()
        invariant
            j <= hand@.len(),
            forall|k: int| 0 <= k < j ==> !(hand@[k].suit != Suit::Hearts && follows(hand@, #[trigger] hand@[k], led)),
        decreases hand@.len() - j,
    {
        if hand[j].suit != Suit::Hearts && card_follows(hand, hand[j], led) {
            return true;
        }
        j = j + 1;
    }
    false
}

/// Decides whether the card at `card_index` may be played from `hand`, given
/// whether hearts are broken and the suit led in the current trick, if any.
pub fn is_legal(hand: &Hand, card_index: u8, hearts_broken: bool, led: Option<Suit>) -> (r: LegalResult)
    ensures
        r == legality(hand@, card_index as int, hearts_broken, led),
{
    if card_index as usize >= hand.len() {
        return LegalResult::OutOfRange;
    }
    let card = hand[card_index as usize];
    if !card_follows(hand, card, led) {
        match led {
            Some(s) => {
                return LegalResult::MustFollowSuit(s);
            },
            None => {
                return LegalResult::Legal;
            },
        }
    }
    if card.suit == Suit::Hearts && !hearts_broken && hand_has_non_heart_alternative(hand, led) {
        return LegalResult::HeartsNotYetBroken;
    }
    LegalResult::Legal
}

/// A non-empty hand always has a legal play.
pub proof fn lemma_some_play_is_legal(hand: Seq<Card>, hearts_broken: bool, led: Option<Suit>)
    requires
        hand.len() > 0,
    ensures
        exists|i: int| 0 <= i < hand.len() && legality(hand, i, hearts_broken, led) == LegalResult::Legal,
{
    if led is Some && has_suit(hand, led->Some_0) {
        let s = led->Some_0;
        let j = choose|j: int| 0 <= j < hand.len() && hand[j].suit == s;
        if s == Suit::Hearts {
            assert(!has_non_heart_alternative(hand, led));
        }
        assert(legality(hand, j, hearts_broken, led) == LegalResult::Legal);
    } else if has_non_heart_alternative(hand, led) {
        let j = choose|j: int| 0 <= j < hand.len() && hand[j].suit != Suit::Hearts && follows(hand, hand[j], led);
        assert(legality(hand, j, hearts_broken, led) == LegalResult::Legal);
    } else {
        assert(legality(hand, 0, hearts_broken, led) == LegalResult::Legal);
    }
}

/// Suit-following: when the hand holds a card of the led suit, every card of
/// another suit is rejected with `MustFollowSuit` naming the led suit.
pub proof fn lemma_must_follow_led_suit(hand: Seq<Card>, idx: int, hearts_broken: bool, led: Suit)
    requires
        0 <= idx < hand.len(),
        has_suit(hand, led),
        hand[idx].suit != led,
    ensures
        legality(hand, idx, hearts_broken, Some(led)) == LegalResult::MustFollowSuit(led),
{
}

/// Every index at which the hand may legally be played, in increasing order.
pub fn legal_indices(hand: &Hand, hearts_broken: bool, led: Option<Suit>) -> (r: Vec<u8>)
    requires
        hand@.len() <= 256,
    ensures
        forall|k: int| 0 <= k < r@.len() ==> legality(hand@, r@[k] as int, hearts_broken, led) == LegalResult::Legal,
        forall|i: int| 0 <= i < hand@.len() && legality(hand@, i, hearts_broken, led) == LegalResult::Legal
            ==> r@.contains(i as u8),
        forall|a: int, b: int| 0 <= a < b < r@.len() ==> r@[a] < r@[b],
        hand@.len() > 0 ==> r@.len() > 0,
{
    let mut r: Vec<u8> = Vec::new();
    let mut i: usize = 0;
    while i < hand.len()
        invariant
            i <= hand@.len() <= 256,
            forall|k: int| 0 <= k < r@.len() ==> legality(hand@, r@[k] as int, hearts_broken, led) == LegalResult::Legal,
            forall|k: int| 0 <= k < r@.len() ==> r@[k] < i,
            forall|j: int| 0 <= j < i && legality(hand@, j, hearts_broken, led) == LegalResult::Legal
                ==> r@.contains(j as u8),
            forall|a: int, b: int| 0 <= a < b < r@.len() ==> r@[a] < r@[b],
        decreases hand@.len() - i,
    {
        let v = is_legal(hand, i as u8, hearts_broken, led);
        if v == LegalResult::Legal {
            let ghost old_r = r@;
            r.push(i as u8);
            proof {
                assert forall|j: int| 0 <= j <= i && legality(hand@, j, hearts_broken, led) == LegalResult::Legal
                    implies r@.contains(j as u8) by {
                    if j < i {
                        let k = choose|k: int| 0 <= k < old_r.len() && old_r[k] == j as u8;
                        assert(r@[k] == j as u8);
                    } else {
                        assert(r@[old_r.len() as int] == j as u8);
                    }
                }
            }
        }
        i = i + 1;
    }
    proof {
        if hand@.len() > 0 {
            lemma_some_play_is_legal(hand@, hearts_broken, led);
            let i = choose|i: int| 0 <= i < hand@.len() && legality(hand@, i, hearts_broken, led) == LegalResult::Legal;
            assert(r@.contains(i as u8));
        }
    }
    r
}

} // verus!
