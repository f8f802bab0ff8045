use vstd::prelude::*;
use crate::card::{Card, Suit, card_points, is_queen_of_spades};

verus! {

/// `i` is the winning position of `trick`: its card is of the led suit (the
/// suit of the first card) and no card of the led suit is higher.
pub open spec fn is_trick_winner(trick: Seq<Card>, i: int) -> bool {
    &&& 0 <= i < trick.len()
    &&& trick[i].suit == trick[0].suit
    &&& forall|j: int| 0 <= j < trick.len() && #[trigger] trick[j].suit == trick[0].suit
            ==> trick[j].value <= trick[i].value
}

/// Total penalty points of a sequence of cards.
pub open spec fn points_of(cards: Seq<Card>) -> nat
    decreases cards.len(),
{
    if cards.len() == 0 {
        0
    } else {
        points_of(cards.drop_last()) + card_points(cards.last())
    }
}

/// The position of the card that wins a trick: the highest card of the suit led.
pub fn trick_winner(trick: &Vec<Card>) -> (w: usize)
    requires
        trick@.len() > 0,
    ensures
        is_trick_winner(trick@, w as int),
{
    let led = trick[0].suit;
    let mut w: usize = 0;
    let mut j: usize = 1;
    while j < trick.len()
        invariant
            1 <= j <= trick@.len(),
            led == trick@[0].suit,
            0 <= w < j,
            trick@[w as int].suit == led,
            forall|k: int| 0 <= k < j && #[trigger] trick@[k].suit == led ==> trick@[k].value <= trick@[w as int].value,
        decreases trick@.len() - j,
    {
        if trick[j].suit == led && trick[j].value > trick[w].value {
            w = j;
        }
        j = j + 1;
    }
    w
}

/// The winning card does not depend on the order in which the cards of a
/// trick were played: two tricks with the same cards and the same led suit
/// are won by the same card.
pub proof fn lemma_winner_independent_of_order(t1: Seq<Card>, t2: Seq<Card>, i1: int, i2: int)
    requires
        t1.to_multiset() == t2.to_multiset(),
        t1.len() > 0,
        t2.len() > 0,
        t1[0].suit == t2[0].suit,
        is_trick_winner(t1, i1),
        is_trick_winner(t2, i2),
    ensures
        t1[i1] == t2[i2],
{
    t1.to_multiset_ensures();
    t2.to_multiset_ensures();
    assert(t1.contains(t1[i1]));
    assert(t1.to_multiset().count(t1[i1]) > 0);
    assert(t2.to_multiset().count(t1[i1]) > 0);
    assert(t2.contains(t1[i1]));
    let k2 = choose|k: int| 0 <= k < t2.len() && t2[k] == t1[i1];
    assert(t2[k2].suit == t2[0].suit);
    assert(t2.contains(t2[i2]));
    assert(t2.to_multiset().count(t2[i2]) > 0);
    assert(t1.to_multiset().count(t2[i2]) > 0);
    assert(t1.contains(t2[i2]));
    let k1 = choose|k: int| 0 <= k < t1.len() && t1[k] == t2[i2];
    assert(t1[k1].suit == t1[0].suit);
}

/// Penalty points of one card: one for a Heart, thirteen for the queen of spades.
pub fn points_of_card(c: Card) -> (p: u32)
    ensures
        p == card_points(c),
{
    if c.suit == Suit::Hearts {
        1
    } else if c.suit == Suit::Spades && c.value == 12 {
        13
    } else {
        0
    }
}

/// The points a trick carries: one per Heart plus thirteen for the queen of spades.
pub fn trick_points(trick: &Vec<Card>) -> (p: u32)
    requires
        trick@.len() <= 52,
    ensures
        p == points_of(trick@),
{
    let mut p: u32 = 0;
    let mut j: usize = 0;
    while j < trick.len()
        invariant
            j <= trick@.len() <= 52,
            p == points_of(trick@.subrange(0, j as int)),
            p <= 13 * j,
        decreases trick@.len() - j,
    {
        proof {
            assert(trick@.subrange(0, j + 1).drop_last() =~= trick@.subrange(0, j as int));
        }
        p = p + points_of_card(trick[j]);
        j = j + 1;
    }
    assert(trick@.subrange(0, j as int) =~= trick@);
    p
}

/// Whether any card of the sequence is a Heart or the queen of spades.
pub open spec fn has_point_card(cards: Seq<Card>) -> bool {
    exists|j: int| 0 <= j < cards.len() && (cards[j].suit == Suit::Hearts || is_queen_of_spades(cards[j]))
}

/// Whether a trick breaks hearts: it holds a Heart or the queen of spades.
pub fn breaks_hearts(trick: &Vec<Card>) -> (r: bool)
    ensures
        r == has_point_card(trick@),
{
    let mut j: usize = 0;
    while j < trick.len()
        invariant
            j <= trick@.len(),
            forall|k: int| 0 <= k < j ==> !(trick@[k].suit == Suit::Hearts || is_queen_of_spades(#[trigger] trick@[k])),
        decreases trick@.len() - j,
    {
        if trick[j].suit == Suit::Hearts || (trick[j].suit == Suit::Spades && trick[j].value == 12) {
            return true;
        }
        j = j + 1;
    }
    false
}

/// Points of a concatenation add up.
pub proof fn lemma_points_concat(a: Seq<Card>, b: Seq<Card>)
    ensures
        points_of(a + b) == points_of(a) + points_of(b),
    decreases b.len(),
{
    if b.len() == 0 {
        assert(a + b =~= a);
    } else {
        lemma_points_concat(a, b.drop_last());
        assert((a + b).drop_last() =~= a + b.drop_last());
    }
}

/// Taking one card out of a sequence takes away its points.
pub proof fn lemma_points_remove(s: Seq<Card>, i: int)
    requires
        0 <= i < s.len(),
    ensures
        points_of(s) == points_of(s.remove(i)) + card_points(s[i]),
    decreases s.len(),
{
    if i == s.len() - 1 {
        assert(s.remove(i) =~= s.drop_last());
    } else {
        lemma_points_remove(s.drop_last(), i);
        assert(s.remove(i).drop_last() =~= s.drop_last().remove(i));
    }
}

/// The points of a sequence depend only on which cards it holds.
pub proof fn lemma_points_permutation(s1: Seq<Card>, s2: Seq<Card>)
    requires
        s1.to_multiset() == s2.to_multiset(),
    ensures
        points_of(s1) == points_of(s2),
    decreases s1.len(),
{
    s1.to_multiset_ensures();
    s2.to_multiset_ensures();
    if s1.len() > 0 {
        let x = s1.last();
        assert(s1.contains(x));
        assert(s1.to_multiset().count(x) > 0);
        assert(s2.contains(x));
        let i = choose|i: int| 0 <= i < s2.len() && s2[i] == x;
        assert(s1.drop_last().push(x) =~= s1);
        s1.drop_last().to_multiset_ensures();
        assert(s1.drop_last().to_multiset() =~= s1.to_multiset().remove(x));
        assert(s2.remove(i).to_multiset() =~= s2.to_multiset().remove(x));
        lemma_points_permutation(s1.drop_last(), s2.remove(i));
        lemma_points_remove(s2, i);
    }
}

/// A sequence whose every card carries `k` points carries `k` per card.
pub proof fn lemma_points_uniform(s: Seq<Card>, k: nat)
    requires
        forall|i: int| 0 <= i < s.len() ==> card_points(#[trigger] s[i]) == k,
    ensures
        points_of(s) == k * s.len(),
    decreases s.len(),
{
    if s.len() > 0 {
        lemma_points_uniform(s.drop_last(), k);
        assert(k * s.len() == k * (s.len() - 1) + k) by (nonlinear_arith);
    }
}

} // verus!
