use vstd::prelude::*;
use vstd::multiset::Multiset;
use rand::rngs::StdRng;
use rand::seq::SliceRandom;
use crate::card::{Card, Hand, deck_card, full_deck, generate_deck, suit_pos, valid_card};
use crate::trick::{points_of, lemma_points_concat, lemma_points_permutation, lemma_points_uniform};

verus! {

broadcast use vstd::multiset::group_multiset_axioms;

/// A seedable pseudo-random generator of the rand crate.
#[verifier::external_type_specification]
#[verifier::external_body]
pub struct ExStdRng(StdRng);

/// Relies on rand's SliceRandom::shuffle, which permutes the slice in place by swaps.
#[verifier::external_body]
fn shuffle_cards(deck: &mut Vec<Card>, rng: &mut StdRng)
    ensures
        final(deck)@.to_multiset() == old(deck)@.to_multiset(),
{
    deck.as_mut_slice().shuffle(rng)
}

/// The cards of four hands taken together.
pub open spec fn union_of_hands(hands: Seq<Vec<Card>>) -> Multiset<Card> {
    hands[0]@.to_multiset().add(hands[1]@.to_multiset()).add(hands[2]@.to_multiset()).add(
        hands[3]@.to_multiset(),
    )
}

/// Position in the deck of the `t`-th card dealt to seat `h`: cards are taken
/// from the top (the end) of the deck and handed out round-robin.
pub open spec fn dealt_from(t: int, h: int) -> int {
    51 - 4 * t - h
}

pub(crate) proof fn lemma_empty_multiset(s: Seq<Card>)
    requires
        s.len() == 0,
    ensures
        s.to_multiset() == Multiset::<Card>::empty(),
{
    s.to_multiset_ensures();
    vstd::multiset::lemma_multiset_empty_len(s.to_multiset());
}

proof fn lemma_pop_multiset(s: Seq<Card>)
    requires
        s.len() > 0,
    ensures
        s.to_multiset() == s.drop_last().to_multiset().insert(s.last()),
{
    s.drop_last().to_multiset_ensures();
    assert(s.drop_last().push(s.last()) =~= s);
}

/// Deals a 52-card deck into four hands of thirteen, one card at a time from
/// the top of the deck, seat by seat.
pub fn deal_deck(deck: Vec<Card>) -> (hands: Vec<Hand>)
    requires
        deck@.len() == 52,
    ensures
        hands@.len() == 4,
        forall|h: int| 0 <= h < 4 ==> (#[trigger] hands@[h])@.len() == 13,
        forall|h: int, t: int| 0 <= h < 4 && 0 <= t < 13 ==> (#[trigger] hands@[h]@[t]) == deck@[dealt_from(t, h)],
        union_of_hands(hands@) == deck@.to_multiset(),
{
    let ghost orig = deck@;
    let mut deck = deck;
    let mut h0: Vec<Card> = Vec::new();
    let mut h1: Vec<Card> = Vec::new();
    let mut h2: Vec<Card> = Vec::new();
    let mut h3: Vec<Card> = Vec::new();
    proof {
        lemma_empty_multiset(h0@);
        lemma_empty_multiset(h1@);
        lemma_empty_multiset(h2@);
        lemma_empty_multiset(h3@);
        assert(deck@ =~= orig.subrange(0, 52));
    }
    let mut t: usize = 0;
    while t < 13
        invariant
            t <= 13,
            orig.len() == 52,
            deck@ == orig.subrange(0, 52 - 4 * t),
            h0@.len() == t && h1@.len() == t && h2@.len() == t && h3@.len() == t,
            forall|k: int| 0 <= k < t ==> #[trigger] h0@[k] == orig[dealt_from(k, 0)],
            forall|k: int| 0 <= k < t ==> #[trigger] h1@[k] == orig[dealt_from(k, 1)],
            forall|k: int| 0 <= k < t ==> #[trigger] h2@[k] == orig[dealt_from(k, 2)],
            forall|k: int| 0 <= k < t ==> #[trigger] h3@[k] == orig[dealt_from(k, 3)],
            deck@.to_multiset().add(h0@.to_multiset()).add(h1@.to_multiset()).add(h2@.to_multiset()).add(
                h3@.to_multiset(),
            ) == orig.to_multiset(),
        decreases 13 - t,
    {
        proof {
            lemma_pop_multiset(deck@);
            h0@.to_multiset_ensures();
        }
        let c = deck.pop().unwrap();
        h0.push(c);
        proof {
            lemma_pop_multiset(deck@);
            h1@.to_multiset_ensures();
        }
        let c = deck.pop().unwrap();
        h1.push(c);
        proof {
            lemma_pop_multiset(deck@);
            h2@.to_multiset_ensures();
        }
        let c = deck.pop().unwrap();
        h2.push(c);
        proof {
            lemma_pop_multiset(deck@);
            h3@.to_multiset_ensures();
        }
        let c = deck.pop().unwrap();
        h3.push(c);
        proof {
            assert(deck@ =~= orig.subrange(0, 52 - 4 * (t + 1)));
        }
        t = t + 1;
    }
    proof {
        lemma_empty_multiset(deck@);
    }
    let mut hands: Vec<Hand> = Vec::new();
    hands.push(h0);
    hands.push(h1);
    hands.push(h2);
    hands.push(h3);
    proof {
        assert(union_of_hands(hands@) =~= orig.to_multiset());
    }
    hands
}

/// Shuffles a fresh deck with `rng` and deals it into four hands of thirteen;
/// together the hands hold every card of the deck exactly once.
pub fn deal(rng: &mut StdRng) -> (hands: Vec<Hand>)
    ensures
        hands@.len() == 4,
        forall|h: int| 0 <= h < 4 ==> (#[trigger] hands@[h])@.len() == 13,
        union_of_hands(hands@) == full_deck().to_multiset(),
{
    let mut deck = generate_deck();
    shuffle_cards(&mut deck, rng);
    proof {
        deck@.to_multiset_ensures();
        full_deck().to_multiset_ensures();
    }
    deal_deck(deck)
}

/// The deck holds each valid card exactly once: no two positions hold the
/// same card, and every card of value 2 to 14 appears.
pub proof fn lemma_full_deck_exactly_once(c: Card)
    requires
        valid_card(c),
    ensures
        full_deck().no_duplicates(),
        full_deck().contains(c),
        full_deck().to_multiset().count(c) == 1,
{
    let d = full_deck();
    assert forall|i: int, j: int| 0 <= i < d.len() && 0 <= j < d.len() && i != j implies d[i] != d[j] by {
        assert(suit_pos(deck_card(i).suit) == i / 13);
        assert(suit_pos(deck_card(j).suit) == j / 13);
        assert(i == 13 * (i / 13) + i % 13);
        assert(j == 13 * (j / 13) + j % 13);
    }
    let k = 13 * suit_pos(c.suit) + (c.value - 2);
    assert(k / 13 == suit_pos(c.suit) && k % 13 == c.value - 2) by (nonlinear_arith)
        requires k == 13 * suit_pos(c.suit) + (c.value - 2), 0 <= c.value - 2 < 13;
    assert(d[k] == c);
    lemma_count_unique(d, c, k);
}

proof fn lemma_count_unique(s: Seq<Card>, c: Card, k: int)
    requires
        s.no_duplicates(),
        0 <= k < s.len(),
        s[k] == c,
    ensures
        s.to_multiset().count(c) == 1,
    decreases s.len(),
{
    lemma_pop_multiset(s);
    let p = s.drop_last();
    if k == s.len() - 1 {
        p.to_multiset_ensures();
        assert(!p.contains(c));
    } else {
        assert(p.no_duplicates());
        assert(p[k] == c);
        lemma_count_unique(p, c, k);
        assert(s.last() != c);
    }
}

/// The deck carries 26 points: thirteen Hearts and the queen of spades.
pub proof fn lemma_deck_points()
    ensures
        points_of(full_deck()) == 26,
{
    let d = full_deck();
    let hearts = d.subrange(0, 13);
    let diamonds = d.subrange(13, 26);
    let low_spades = d.subrange(26, 36);
    let queen = d.subrange(36, 37);
    let rest = d.subrange(37, 52);
    assert(d =~= hearts + diamonds + low_spades + queen + rest);
    lemma_points_uniform(hearts, 1);
    lemma_points_uniform(diamonds, 0);
    lemma_points_uniform(low_spades, 0);
    lemma_points_uniform(queen, 13);
    lemma_points_uniform(rest, 0);
    lemma_points_concat(hearts, diamonds);
    lemma_points_concat(hearts + diamonds, low_spades);
    lemma_points_concat(hearts + diamonds + low_spades, queen);
    lemma_points_concat(hearts + diamonds + low_spades + queen, rest);
}

/// Points of four hands taken together.
pub open spec fn hands_points(hands: Seq<Vec<Card>>) -> nat {
    points_of(hands[0]@) + points_of(hands[1]@) + points_of(hands[2]@) + points_of(hands[3]@)
}

/// Four hands that together hold the deck carry 26 points between them.
pub proof fn lemma_dealt_points(hands: Seq<Vec<Card>>)
    requires
        hands.len() == 4,
        union_of_hands(hands) == full_deck().to_multiset(),
    ensures
        hands_points(hands) == 26,
{
    let (a, b, c, e) = (hands[0]@, hands[1]@, hands[2]@, hands[3]@);
    vstd::seq_lib::lemma_multiset_commutative(a, b);
    vstd::seq_lib::lemma_multiset_commutative(a + b, c);
    vstd::seq_lib::lemma_multiset_commutative(a + b + c, e);
    lemma_points_permutation(a + b + c + e, full_deck());
    lemma_points_concat(a, b);
    lemma_points_concat(a + b, c);
    lemma_points_concat(a + b + c, e);
    lemma_deck_points();
}

} // verus!
