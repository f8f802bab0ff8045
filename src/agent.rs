use vstd::prelude::*;
use rand::rngs::StdRng;
use rand::{Rng, SeedableRng};
use crate::card::{Card, Hand, Suit};
use crate::game::led_suit;
use crate::legality::{LegalResult, legal_indices, legality};

verus! {

/// A player, who may be controlled by a human, an algorithm or a test system.
pub trait PlayerAgent {
    /// Takes a turn and returns the index in `hand` of the card to play, given
    /// the player's score, the cards already played to the trick (the first
    /// one set the led suit) and whether hearts are broken.
    fn turn(&mut self, hand: &Hand, current_score: u32, already_played: Vec<Card>, hearts_broken: bool) -> u8
        requires
            0 < hand@.len() <= 255,
    ;
}

/// Relies on rand's SeedableRng::seed_from_u64: a generator seeded from a number.
#[verifier::external_body]
fn seeded_rng(seed: u64) -> StdRng {
    StdRng::seed_from_u64(seed)
}

/// Relies on rand's Rng::gen_range, which returns a value of the range
/// `0..n` and panics only when that range is empty.
#[verifier::external_body]
fn random_below(rng: &mut StdRng, n: usize) -> (r: usize)
    requires
        n > 0,
    ensures
        r < n,
{
    rng.gen_range(0..n)
}

/// An agent that plays a card drawn uniformly among the legal ones.
pub struct RandomPlayer {
    rng: StdRng,
}

impl RandomPlayer {
    /// An agent whose draws are determined by `seed`.
    pub fn new(seed: u64) -> RandomPlayer {
        RandomPlayer { rng: seeded_rng(seed) }
    }

    /// An agent that draws from the given generator.
    pub fn from_rng(rng: StdRng) -> RandomPlayer {
        RandomPlayer { rng }
    }

    /// Draws the index of a legal card of `hand`.
    pub fn pick(&mut self, hand: &Hand, hearts_broken: bool, led: Option<Suit>) -> (r: u8)
        requires
            0 < hand@.len() <= 255,
        ensures
            legality(hand@, r as int, hearts_broken, led) == LegalResult::Legal,
    {
        let legal = legal_indices(hand, hearts_broken, led);
        let k = random_below(&mut self.rng, legal.len());
        legal[k]
    }
}

impl PlayerAgent for RandomPlayer {
    fn turn(&mut self, hand: &Hand, current_score: u32, already_played: Vec<Card>, hearts_broken: bool) -> (r: u8)
        ensures
            legality(hand@, r as int, hearts_broken, led_suit(already_played@)) == LegalResult::Legal,
    {
        let led = if already_played.len() == 0 {
            None
        } else {
            Some(already_played[0].suit)
        };
        self.pick(hand, hearts_broken, led)
    }
}

} // verus!
