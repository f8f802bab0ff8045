use vstd::prelude::*;
use vstd::multiset::Multiset;
use rand::rngs::StdRng;
use crate::card::{Card, Hand, Suit};
use crate::dealer::{lemma_empty_multiset, lemma_full_deck_exactly_once, deal, hands_points, lemma_dealt_points, union_of_hands};
use crate::card::full_deck;
use crate::legality::{LegalResult, is_legal, legality};
use crate::scoring::{lemma_round_total, lemma_total_of_four, shot_the_moon, total, apply_shoot_the_moon, match_over, reached_target, round_result, winners, is_lowest};
use crate::trick::{lemma_points_remove, breaks_hearts, has_point_card, is_trick_winner, points_of, trick_points, trick_winner};

verus! {

broadcast use vstd::multiset::group_multiset_axioms;

/// Score at which the match ends.
pub const TARGET_SCORE: u32 = 100;

/// Who decides the plays of a seat.
#[derive(Clone, Copy, Debug, PartialEq, Eq, Structural)]
pub enum AgentKind {
    Human,
    Random,
}

/// Where the match stands.
#[derive(Clone, Copy, Debug, PartialEq, Eq, Structural)]
pub enum Phase {
    /// Cards are being played to tricks.
    Playing,
    /// The round's thirteen tricks are done; a new deal is due.
    RoundOver,
    /// A cumulative score reached the target.
    MatchOver,
}

/// What one play brought about.
#[derive(Debug, PartialEq, Eq)]
pub enum TurnOutcome {
    /// The play was refused; nothing changed and the same seat plays again.
    Rejected(LegalResult),
    /// The card was played and the trick goes on with the next seat.
    Played,
    /// The card completed a trick, taken by the given seat, which leads next.
    TrickTaken(usize),
    /// The card completed the round's last trick; the scores were updated.
    RoundOver,
    /// The round's scores ended the match; the seats with the lowest score win.
    MatchOver(Vec<usize>),
}

/// The state of a match. Four seats always play, so the deck divides evenly
/// and no cards are set aside; seats not taken by people are played by
/// agents. The holder of the two of clubs leads each round, and the lead of
/// the first trick is bound by no rule beyond those of any other trick.
pub struct GameState {
    pub kinds: Vec<AgentKind>,
    pub scores: Vec<u32>,
    pub hands: Vec<Hand>,
    pub next_player: usize,
    pub leader: usize,
    pub trick: Vec<Card>,
    pub hearts_broken: bool,
    pub round_points: Vec<u32>,
    /// The cards of the tricks completed this round, in the order played.
    pub taken: Vec<Card>,
    pub tricks_played: u8,
    pub round_number: u32,
    pub phase: Phase,
}

/// The suit led in a trick, if a card has been played to it.
pub open spec fn led_suit(trick: Seq<Card>) -> Option<Suit> {
    if trick.len() == 0 {
        None
    } else {
        Some(trick[0].suit)
    }
}

/// The seat that plays the `k`-th card of a trick led by `leader`.
pub open spec fn seat_of(leader: int, k: int) -> int {
    (leader + k) % 4
}

/// Whether `seat` has already played to the current trick.
pub open spec fn has_played(leader: int, trick_len: int, seat: int) -> bool {
    (seat - leader + 4) % 4 < trick_len
}

/// Whether the hands form a deal: four hands of thirteen cards.
pub open spec fn is_deal(hands: Seq<Vec<Card>>) -> bool {
    &&& hands.len() == 4
    &&& forall|p: int| 0 <= p < 4 ==> (#[trigger] hands[p])@.len() == 13
}

pub open spec fn two_of_clubs() -> Card {
    Card { suit: Suit::Clubs, value: 2 }
}

impl GameState {
    pub open spec fn wf(&self) -> bool {
        &&& self.kinds@.len() == 4
        &&& self.scores@.len() == 4
        &&& self.hands@.len() == 4
        &&& self.round_points@.len() == 4
        &&& self.leader < 4
        &&& self.trick@.len() < 4
        &&& self.next_player == seat_of(self.leader as int, self.trick@.len() as int)
        &&& self.tricks_played <= 13
        &&& (self.phase == Phase::Playing ==> self.tricks_played < 13)
        &&& (self.phase != Phase::Playing ==> self.trick@.len() == 0)
        &&& forall|p: int| 0 <= p < 4 ==> (#[trigger] self.hands@[p])@.len() == 13 - self.tricks_played
            - (if has_played(self.leader as int, self.trick@.len() as int, p) { 1int } else { 0int })
        &&& self.conserves()
        &&& self.cards_in_play() == full_deck().to_multiset()
        &&& forall|p: int| 0 <= p < 4 ==> #[trigger] self.scores@[p] < TARGET_SCORE + 26
        &&& (self.phase != Phase::MatchOver ==> forall|p: int| 0 <= p < 4 ==> #[trigger] self.scores@[p] < TARGET_SCORE)
        &&& (self.phase == Phase::MatchOver ==> reached_target(self.scores@, TARGET_SCORE))
        &&& (self.phase == Phase::Playing && self.tricks_played == 0 && self.trick@.len() == 0 ==> {
            &&& !self.hearts_broken
            &&& self.hands@[self.leader as int]@.contains(two_of_clubs())
        })
        &&& (self.phase == Phase::Playing ==> self.round_number >= 1)
        &&& total(self.scores@) >= 26 * self.completed_rounds()
        &&& self.round_number <= 16
    }

    /// Rounds whose scores have been added.
    pub open spec fn completed_rounds(&self) -> int {
        if self.phase == Phase::Playing {
            self.round_number - 1
        } else {
            self.round_number as int
        }
    }

    /// The cards held, on the table and already taken this round.
    pub open spec fn cards_in_play(&self) -> Multiset<Card> {
        union_of_hands(self.hands@).add(self.trick@.to_multiset()).add(self.taken@.to_multiset())
    }

    /// The round's 26 points are all accounted for: those already taken, those
    /// on the table and those still in the hands.
    pub open spec fn conserves(&self) -> bool {
        total(self.round_points@) + hands_points(self.hands@) + points_of(self.trick@) == 26
    }

    /// The current state of a round freshly dealt from `hands`, with scores and
    /// seats carried over.
    pub open spec fn fresh_round(&self, hands: Seq<Vec<Card>>) -> bool {
        &&& self.hands@ == hands
        &&& self.trick@.len() == 0
        &&& !self.hearts_broken
        &&& self.tricks_played == 0
        &&& self.phase == Phase::Playing
        &&& self.round_points@ == seq![0u32, 0u32, 0u32, 0u32]
        &&& self.next_player == self.leader
        &&& (exists|p: int, k: int| 0 <= p < 4 && 0 <= k < hands[p]@.len() && hands[p]@[k] == two_of_clubs())
            ==> hands[self.leader as int]@.contains(two_of_clubs())
    }
}

/// Moving a card from a hand to the trick keeps the cards in play.
proof fn lemma_play_keeps_cards(h0: Seq<Vec<Card>>, h1: Seq<Vec<Card>>, seat: int, idx: int, t0: Seq<Card>, t1: Seq<Card>)
    requires
        h0.len() == 4,
        h1.len() == 4,
        0 <= seat < 4,
        0 <= idx < h0[seat]@.len(),
        forall|p: int| 0 <= p < 4 && p != seat ==> h1[p]@ == h0[p]@,
        h1[seat]@ == h0[seat]@.remove(idx),
        t1 == t0.push(h0[seat]@[idx]),
    ensures
        union_of_hands(h1).add(t1.to_multiset()) == union_of_hands(h0).add(t0.to_multiset()),
{
    let c = h0[seat]@[idx];
    h0[seat]@.to_multiset_ensures();
    t0.to_multiset_ensures();
    assert(h0[seat]@.to_multiset().count(c) > 0);
    assert(h1[seat]@.to_multiset() == h0[seat]@.to_multiset().remove(c));
    assert(t1.to_multiset() == t0.to_multiset().insert(c));
    assert(union_of_hands(h1).add(t1.to_multiset()) =~= union_of_hands(h0).add(t0.to_multiset()));
}

/// A deal of the full deck puts the two of clubs in some hand.
proof fn lemma_deal_holds_two_of_clubs(hands: Seq<Vec<Card>>)
    requires
        hands.len() == 4,
        union_of_hands(hands) == full_deck().to_multiset(),
    ensures
        exists|p: int, k: int| 0 <= p < 4 && 0 <= k < hands[p]@.len() && hands[p]@[k] == two_of_clubs(),
{
    let c = two_of_clubs();
    lemma_full_deck_exactly_once(c);
    assert(union_of_hands(hands).count(c) == 1);
    let p: int = if hands[0]@.to_multiset().count(c) > 0 {
        0
    } else if hands[1]@.to_multiset().count(c) > 0 {
        1
    } else if hands[2]@.to_multiset().count(c) > 0 {
        2
    } else {
        3
    };
    hands[p]@.to_multiset_ensures();
    assert(hands[p]@.contains(c));
}

/// The seat whose hand holds the two of clubs, or seat 0 if none does.
fn find_two_of_clubs(hands: &Vec<Hand>) -> (r: usize)
    requires
        hands@.len() == 4,
    ensures
        r < 4,
        (exists|p: int, k: int| 0 <= p < 4 && 0 <= k < hands@[p]@.len() && hands@[p]@[k] == two_of_clubs())
            ==> hands@[r as int]@.contains(two_of_clubs()),
{
    let mut p: usize = 0;
    while p < 4
        invariant
            p <= 4,
            hands@.len() == 4,
            forall|q: int, k: int| 0 <= q < p && 0 <= k < hands@[q]@.len() ==> hands@[q]@[k] != two_of_clubs(),
        decreases 4 - p,
    {
        let mut k: usize = 0;
        while k < hands[p].len()
            invariant
                p < 4,
                k <= hands@[p as int]@.len(),
                hands@.len() == 4,
                forall|j: int| 0 <= j < k ==> hands@[p as int]@[j] != two_of_clubs(),
            decreases hands@[p as int]@.len() - k,
        {
            if hands[p][k].suit == Suit::Clubs && hands[p][k].value == 2 {
                assert(hands@[p as int]@[k as int] == two_of_clubs());
                return p;
            }
            k = k + 1;
        }
        p = p + 1;
    }
    0
}


impl GameState {
    /// A match in which the first `human_player_count` seats are played by
    /// people and the rest by random agents, with the first round dealt from
    /// `rng`; the holder of the two of clubs leads.
    pub fn new(human_player_count: u8, rng: &mut StdRng) -> (g: GameState)
        requires
            human_player_count <= 4,
        ensures
            g.wf(),
            forall|p: int| 0 <= p < 4 ==> (#[trigger] g.kinds@[p] == AgentKind::Human) == (p < human_player_count),
            g.scores@ == seq![0u32, 0u32, 0u32, 0u32],
            g.round_number == 1,
            is_deal(g.hands@),
            union_of_hands(g.hands@) == full_deck().to_multiset(),
            g.fresh_round(g.hands@),
    {
        let mut kinds: Vec<AgentKind> = Vec::new();
        let mut p: u8 = 0;
        while p < 4
            invariant
                p <= 4,
                kinds@.len() == p,
                forall|q: int| 0 <= q < p ==> (#[trigger] kinds@[q] == AgentKind::Human) == (q < human_player_count),
            decreases 4 - p,
        {
            if p < human_player_count {
                kinds.push(AgentKind::Human);
            } else {
                kinds.push(AgentKind::Random);
            }
            p = p + 1;
        }
        let mut g = GameState {
            kinds,
            scores: vec![0, 0, 0, 0],
            hands: Vec::new(),
            next_player: 0,
            leader: 0,
            trick: Vec::new(),
            hearts_broken: false,
            round_points: vec![0, 0, 0, 0],
            taken: Vec::new(),
            tricks_played: 13,
            round_number: 0,
            phase: Phase::RoundOver,
        };
        proof {
            assert(g.scores@ =~= seq![0u32, 0u32, 0u32, 0u32]);
            lemma_total_of_four(g.scores@);
        }
        let hands = deal(rng);
        g.start_round(hands);
        g
    }

    /// Begins a new round on the given deal: the round's points, the trick and
    /// the hearts-broken flag are reset, and the holder of the two of clubs leads.
    pub fn start_round(&mut self, hands: Vec<Hand>)
        requires
            old(self).kinds@.len() == 4,
            old(self).scores@.len() == 4,
            forall|p: int| 0 <= p < 4 ==> #[trigger] old(self).scores@[p] < TARGET_SCORE,
            old(self).phase == Phase::RoundOver,
            total(old(self).scores@) >= 26 * old(self).round_number,
            is_deal(hands@),
            union_of_hands(hands@) == full_deck().to_multiset(),
        ensures
            final(self).wf(),
            final(self).fresh_round(hands@),
            final(self).kinds == old(self).kinds,
            final(self).scores == old(self).scores,
            final(self).round_number == old(self).round_number + 1,
    {
        proof {
            lemma_total_of_four(old(self).scores@);
            lemma_deal_holds_two_of_clubs(hands@);
        }
        let leader = find_two_of_clubs(&hands);
        self.hands = hands;
        self.leader = leader;
        self.next_player = leader;
        self.trick = Vec::new();
        self.hearts_broken = false;
        self.round_points = vec![0, 0, 0, 0];
        self.taken = Vec::new();
        self.tricks_played = 0;
        self.round_number = self.round_number + 1;
        self.phase = Phase::Playing;
        proof {
            assert(self.round_points@ =~= seq![0u32, 0u32, 0u32, 0u32]);
            assert((leader + 0) % 4 == leader);
            assert forall|p: int| 0 <= p < 4 implies !has_played(leader as int, 0, p) by {}
            lemma_total_of_four(self.round_points@);
            lemma_dealt_points(hands@);
            lemma_empty_multiset(self.trick@);
            lemma_empty_multiset(self.taken@);
            assert(self.cards_in_play() =~= full_deck().to_multiset());
        }
    }

    /// Shuffles and deals a new round once the previous one is over.
    pub fn new_round(&mut self, rng: &mut StdRng)
        requires
            old(self).wf(),
            old(self).phase == Phase::RoundOver,
        ensures
            final(self).wf(),
            is_deal(final(self).hands@),
            union_of_hands(final(self).hands@) == full_deck().to_multiset(),
            final(self).fresh_round(final(self).hands@),
            final(self).kinds == old(self).kinds,
            final(self).scores == old(self).scores,
            final(self).round_number == old(self).round_number + 1,
    {
        let hands = deal(rng);
        self.start_round(hands);
    }
}

impl GameState {
    /// The hand of the seat to play.
    pub open spec fn current_hand(&self) -> Seq<Card> {
        self.hands@[self.next_player as int]@
    }

    /// The verdict on the seat to play choosing the card at `idx`.
    pub open spec fn verdict(&self, idx: int) -> LegalResult {
        legality(self.current_hand(), idx, self.hearts_broken, led_suit(self.trick@))
    }

    /// The trick once the seat to play has added the card at `idx`.
    pub open spec fn trick_with(&self, idx: int) -> Seq<Card> {
        self.trick@.push(self.current_hand()[idx])
    }

    /// The hands once the seat to play has given up the card at `idx`.
    pub open spec fn hands_without(&self, idx: int) -> Seq<Seq<Card>> {
        Seq::new(4, |p: int| if p == self.next_player { self.current_hand().remove(idx) } else { self.hands@[p]@ })
    }

    pub open spec fn hand_views(&self) -> Seq<Seq<Card>> {
        Seq::new(4, |p: int| self.hands@[p]@)
    }

    /// The seat to play puts the card at `card_index` on the trick. A play that
    /// the rules refuse changes nothing. A play that completes a trick hands it
    /// to the seat of its highest card of the led suit, which scores the
    /// trick's points and leads next; a trick holding a Heart or the queen of
    /// spades breaks hearts. After the thirteenth trick the round's points, with
    /// the shoot-the-moon rule applied, are added to the cumulative scores, and
    /// the match ends once a score reaches the target.
    #[verifier::rlimit(100)]
    pub fn run_turn(&mut self, card_index: u8) -> (r: TurnOutcome)
        requires
            old(self).wf(),
            old(self).phase == Phase::Playing,
        ensures
            final(self).wf(),
            final(self).kinds == old(self).kinds,
            final(self).round_number == old(self).round_number,
            old(self).hearts_broken ==> final(self).hearts_broken,
            old(self).verdict(card_index as int) != LegalResult::Legal ==> {
                &&& r == TurnOutcome::Rejected(old(self).verdict(card_index as int))
                &&& *final(self) == *old(self)
            },
            old(self).verdict(card_index as int) == LegalResult::Legal ==> {
                let t = old(self).trick_with(card_index as int);
                &&& final(self).hand_views() == old(self).hands_without(card_index as int)
                &&& (t.len() < 4 ==> {
                    &&& r == TurnOutcome::Played
                    &&& final(self).trick@ == t
                    &&& final(self).leader == old(self).leader
                    &&& final(self).hearts_broken == old(self).hearts_broken
                    &&& final(self).round_points == old(self).round_points
                    &&& final(self).taken == old(self).taken
                    &&& final(self).tricks_played == old(self).tricks_played
                    &&& final(self).scores == old(self).scores
                    &&& final(self).phase == Phase::Playing
                })
                &&& (t.len() == 4 ==> {
                    let winner = final(self).leader as int;
                    &&& exists|w: int| is_trick_winner(t, w) && winner == seat_of(old(self).leader as int, w)
                    &&& final(self).trick@.len() == 0
                    &&& final(self).taken@ == old(self).taken@ + t
                    &&& final(self).tricks_played == old(self).tricks_played + 1
                    &&& final(self).hearts_broken == (old(self).hearts_broken || has_point_card(t))
                    &&& final(self).round_points@ == old(self).round_points@.update(
                        winner,
                        (old(self).round_points@[winner] + points_of(t)) as u32,
                    )
                    &&& (final(self).tricks_played < 13 ==> {
                        &&& r == TurnOutcome::TrickTaken(winner as usize)
                        &&& final(self).scores == old(self).scores
                        &&& final(self).phase == Phase::Playing
                    })
                    &&& (final(self).tricks_played == 13 ==> {
                        &&& forall|p: int| 0 <= p < 4 ==> #[trigger] final(self).scores@[p] == old(self).scores@[p]
                            + round_result(final(self).round_points@)[p]
                        &&& !reached_target(final(self).scores@, TARGET_SCORE) ==> {
                            &&& r == TurnOutcome::RoundOver
                            &&& final(self).phase == Phase::RoundOver
                        }
                        &&& reached_target(final(self).scores@, TARGET_SCORE) ==> {
                            &&& r is MatchOver
                            &&& final(self).phase == Phase::MatchOver
                            &&& forall|k: int| 0 <= k < r->MatchOver_0@.len()
                                ==> is_lowest(final(self).scores@, #[trigger] r->MatchOver_0@[k] as int)
                            &&& forall|i: int| is_lowest(final(self).scores@, i) ==> r->MatchOver_0@.contains(i as usize)
                        }
                    })
                })
            },
    {
        let seat = self.next_player;
        let led = if self.trick.len() == 0 {
            None
        } else {
            Some(self.trick[0].suit)
        };
        let verdict = is_legal(&self.hands[seat], card_index, self.hearts_broken, led);
        if verdict != LegalResult::Legal {
            return TurnOutcome::Rejected(verdict);
        }
        let ghost old_self = *self;
        let card = self.hands[seat].remove(card_index as usize);
        self.trick.push(card);
        proof {
            assert(self.trick@ == old_self.trick_with(card_index as int));
            assert(self.hand_views() =~= old_self.hands_without(card_index as int));
            lemma_play_keeps_cards(old_self.hands@, self.hands@, seat as int, card_index as int, old_self.trick@, self.trick@);
            lemma_points_remove(old_self.current_hand(), card_index as int);
            assert(self.trick@.drop_last() =~= old_self.trick@);
            assert forall|p: int| 0 <= p < 4 && p != seat implies self.hands@[p]@ == old_self.hands@[p]@ by {
                assert(self.hands@[p]@ == self.hand_views()[p]);
            }
            assert(self.hands@[seat as int]@ == self.hand_views()[seat as int]);
            assert(hands_points(self.hands@) + points_of(self.trick@) == hands_points(old_self.hands@)
                + points_of(old_self.trick@));
        }
        if self.trick.len() < 4 {
            self.next_player = (seat + 1) % 4;
            proof {
                assert forall|p: int| 0 <= p < 4 implies (#[trigger] self.hands@[p])@.len() == 13 - self.tricks_played
                    - (if has_played(self.leader as int, self.trick@.len() as int, p) { 1int } else { 0int }) by {
                    assert(self.hands@[p]@ == self.hand_views()[p]);
                }
            }
            return TurnOutcome::Played;
        }
        let w = trick_winner(&self.trick);
        let winner = (self.leader + w) % 4;
        let pts = trick_points(&self.trick);
        proof {
            lemma_total_of_four(self.round_points@);
        }
        self.round_points[winner] = self.round_points[winner] + pts;
        if breaks_hearts(&self.trick) {
            self.hearts_broken = true;
        }
        let ghost t = self.trick@;
        proof {
            lemma_total_of_four(self.round_points@);
            lemma_total_of_four(old_self.round_points@);
            assert(total(self.round_points@) == total(old_self.round_points@) + points_of(t));
        }
        self.taken.append(&mut self.trick);
        proof {
            vstd::seq_lib::lemma_multiset_commutative(old_self.taken@, t);
            lemma_empty_multiset(self.trick@);
            assert(self.cards_in_play() =~= union_of_hands(self.hands@).add(t.to_multiset()).add(old_self.taken@.to_multiset()));
        }
        self.leader = winner;
        self.next_player = winner;
        self.tricks_played = self.tricks_played + 1;
        proof {
            assert(is_trick_winner(t, w as int));
            assert forall|p: int| 0 <= p < 4 implies (#[trigger] self.hands@[p])@.len() == 13 - self.tricks_played
                - (if has_played(self.leader as int, self.trick@.len() as int, p) { 1int } else { 0int }) by {
                assert(self.hands@[p]@ == self.hand_views()[p]);
                assert(has_played(old_self.leader as int, 3, p) || p == seat);
            }
        }
        if self.tricks_played < 13 {
            return TurnOutcome::TrickTaken(winner);
        }
        proof {
            assert(hands_points(self.hands@) == 0);
        }
        self.scores = settle(&self.scores, &self.round_points);
        if match_over(&self.scores, TARGET_SCORE) {
            self.phase = Phase::MatchOver;
            let ws = winners(&self.scores);
            return TurnOutcome::MatchOver(ws);
        }
        self.phase = Phase::RoundOver;
        TurnOutcome::RoundOver
    }
}

impl GameState {
    /// Plays the match on a fixed sequence of card choices, each an index into
    /// the hand of the seat to play, dealing each new round from `rng` as soon
    /// as the previous one is over. Refused choices are skipped. Stops at the
    /// end of the first round that brings a score to the target, or when the
    /// choices run out. Returns how many choices were used and, when the match
    /// ended during the call, the seats with the lowest score (several on a tie).
    pub fn run(&mut self, choices: &Vec<u8>, rng: &mut StdRng) -> (r: (usize, Option<Vec<usize>>))
        requires
            old(self).wf(),
        ensures
            final(self).wf(),
            r.0 <= choices@.len(),
            final(self).kinds == old(self).kinds,
            final(self).round_number >= old(self).round_number,
            old(self).phase == Phase::MatchOver ==> *final(self) == *old(self) && r.0 == 0 && r.1 is None,
            r.0 < choices@.len() ==> final(self).phase == Phase::MatchOver,
            final(self).phase == Phase::RoundOver ==> r.0 == choices@.len(),
            final(self).phase == Phase::MatchOver <==> reached_target(final(self).scores@, TARGET_SCORE),
            old(self).hearts_broken && final(self).round_number == old(self).round_number
                ==> final(self).hearts_broken,
            (r.1 is Some) == (old(self).phase != Phase::MatchOver && final(self).phase == Phase::MatchOver),
            r.1 is Some ==> {
                &&& forall|k: int| 0 <= k < r.1->Some_0@.len()
                    ==> is_lowest(final(self).scores@, #[trigger] r.1->Some_0@[k] as int)
                &&& forall|i: int| is_lowest(final(self).scores@, i) ==> r.1->Some_0@.contains(i as usize)
            },
    {
        let mut used: usize = 0;
        if self.phase == Phase::MatchOver {
            return (0, None);
        }
        while used < choices.len()
            invariant
                self.wf(),
                used <= choices@.len(),
                self.kinds == old(self).kinds,
                self.phase != Phase::MatchOver,
                old(self).phase != Phase::MatchOver,
                self.round_number >= old(self).round_number,
                old(self).hearts_broken && self.round_number == old(self).round_number ==> self.hearts_broken,
            decreases choices@.len() - used,
        {
            if self.phase == Phase::RoundOver {
                self.new_round(rng);
            }
            let outcome = self.run_turn(choices[used]);
            used = used + 1;
            match outcome {
                TurnOutcome::MatchOver(ws) => {
                    return (used, Some(ws));
                },
                _ => {},
            }
        }
        (used, None)
    }
}

/// Once the thirteen tricks of a round dealt from the full deck are played,
/// the points taken total 26; so either nobody shot the moon and 26 points
/// are awarded, or the shooter gets 0 and each other seat 26.
pub proof fn lemma_completed_round_awards(g: GameState)
    requires
        g.wf(),
        g.tricks_played == 13,
    ensures
        total(g.round_points@) == 26,
        !shot_the_moon(g.round_points@) ==> total(round_result(g.round_points@)) == 26,
        shot_the_moon(g.round_points@) ==> {
            &&& total(round_result(g.round_points@)) == 26 * 3
            &&& exists|i: int| 0 <= i < 4 && round_result(g.round_points@)[i] == 0
                && forall|j: int| 0 <= j < 4 && j != i ==> round_result(g.round_points@)[j] == 26
        },
{
    assert(g.hands@[0]@.len() == 0);
    assert(g.hands@[1]@.len() == 0);
    assert(g.hands@[2]@.len() == 0);
    assert(g.hands@[3]@.len() == 0);
    lemma_round_total(g.round_points@);
}

/// The cumulative scores once a round whose tricks carried all 26 points is
/// scored, with the shoot-the-moon rule applied.
fn settle(scores: &Vec<u32>, round_points: &Vec<u32>) -> (r: Vec<u32>)
    requires
        scores@.len() == 4,
        round_points@.len() == 4,
        total(round_points@) == 26,
        forall|p: int| 0 <= p < 4 ==> #[trigger] scores@[p] < TARGET_SCORE,
    ensures
        r@.len() == 4,
        forall|p: int| 0 <= p < 4 ==> #[trigger] r@[p] == scores@[p] + round_result(round_points@)[p],
        forall|p: int| 0 <= p < 4 ==> #[trigger] r@[p] < TARGET_SCORE + 26,
        total(r@) >= total(scores@) + 26,
{
    let result = apply_shoot_the_moon(round_points);
    proof {
        lemma_round_total(round_points@);
        lemma_total_of_four(round_points@);
        lemma_total_of_four(result@);
        assert forall|p: int| 0 <= p < 4 implies #[trigger] result@[p] <= 26 by {}
    }
    let r = add_scores(scores, &result);
    proof {
        lemma_total_of_four(r@);
        lemma_total_of_four(scores@);
    }
    r
}

/// Once the thirteen tricks of a round are played, the cards taken are the
/// deck: each of the 52 cards was played exactly once.
pub proof fn lemma_completed_round_cards(g: GameState)
    requires
        g.wf(),
        g.tricks_played == 13,
    ensures
        g.taken@.to_multiset() == full_deck().to_multiset(),
        g.taken@.len() == 52,
{
    lemma_empty_multiset(g.hands@[0]@);
    lemma_empty_multiset(g.hands@[1]@);
    lemma_empty_multiset(g.hands@[2]@);
    lemma_empty_multiset(g.hands@[3]@);
    lemma_empty_multiset(g.trick@);
    assert(g.cards_in_play() =~= g.taken@.to_multiset());
    g.taken@.to_multiset_ensures();
    full_deck().to_multiset_ensures();
}

/// Adds a round's points to the cumulative scores, seat by seat.
fn add_scores(scores: &Vec<u32>, result: &Vec<u32>) -> (r: Vec<u32>)
    requires
        scores@.len() == 4,
        result@.len() == 4,
        forall|p: int| 0 <= p < 4 ==> #[trigger] scores@[p] < TARGET_SCORE,
        forall|p: int| 0 <= p < 4 ==> #[trigger] result@[p] <= 26,
    ensures
        r@.len() == 4,
        forall|p: int| 0 <= p < 4 ==> #[trigger] r@[p] == scores@[p] + result@[p],
{
    let mut r: Vec<u32> = Vec::new();
    let mut i: usize = 0;
    while i < 4
        invariant
            i <= 4,
            scores@.len() == 4,
            result@.len() == 4,
            forall|p: int| 0 <= p < 4 ==> #[trigger] scores@[p] < TARGET_SCORE,
            forall|p: int| 0 <= p < 4 ==> #[trigger] result@[p] <= 26,
            r@.len() == i,
            forall|p: int| 0 <= p < i ==> #[trigger] r@[p] == scores@[p] + result@[p],
        decreases 4 - i,
    {
        assert(scores@[i as int] < TARGET_SCORE && result@[i as int] <= 26);
        r.push(scores[i] + result[i]);
        i = i + 1;
    }
    r
}

} // verus!
