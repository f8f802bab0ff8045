use hearts::agent::{PlayerAgent, RandomPlayer};
use hearts::card::{generate_deck, Card, Suit};
use hearts::dealer::{deal, deal_deck};
use hearts::game::{AgentKind, GameState, Phase, TurnOutcome};
use hearts::legality::{is_legal, legal_indices, LegalResult};
use hearts::scoring::{apply_shoot_the_moon, match_over, winners};
use hearts::trick::{breaks_hearts, trick_points, trick_winner};
use rand::rngs::StdRng;
use rand::SeedableRng;

fn c(suit: Suit, value: u8) -> Card {
    Card { suit, value }
}

fn sorted_keys(cards: &[Card]) -> Vec<(u8, u8)> {
    let mut keys: Vec<(u8, u8)> = cards
        .iter()
        .map(|k| {
            let s = match k.suit {
                Suit::Hearts => 0,
                Suit::Diamonds => 1,
                Suit::Spades => 2,
                Suit::Clubs => 3,
            };
            (s, k.value)
        })
        .collect();
    keys.sort();
    keys
}

#[test]
fn deck_has_52_distinct_cards() {
    let deck = generate_deck();
    assert_eq!(deck.len(), 52);
    assert_eq!(deck[0], c(Suit::Hearts, 2));
    assert_eq!(deck[12], c(Suit::Hearts, 14));
    assert_eq!(deck[13], c(Suit::Diamonds, 2));
    assert_eq!(deck[51], c(Suit::Clubs, 14));
    let mut keys = sorted_keys(&deck);
    keys.dedup();
    assert_eq!(keys.len(), 52);
}

#[test]
fn format_short_names() {
    assert_eq!(c(Suit::Hearts, 10).format_short(), "10H");
    assert_eq!(c(Suit::Spades, 12).format_short(), "QS");
    assert_eq!(c(Suit::Clubs, 2).format_short(), "2C");
    assert_eq!(c(Suit::Diamonds, 14).format_short(), "AD");
    assert_eq!(c(Suit::Diamonds, 11).format_short(), "JD");
    assert_eq!(c(Suit::Clubs, 13).format_short(), "KC");
}

#[test]
fn deal_partitions_the_deck() {
    let mut rng = StdRng::seed_from_u64(42);
    let hands = deal(&mut rng);
    assert_eq!(hands.len(), 4);
    let mut all: Vec<Card> = Vec::new();
    for h in &hands {
        assert_eq!(h.len(), 13);
        all.extend_from_slice(h);
    }
    assert_eq!(sorted_keys(&all), sorted_keys(&generate_deck()));
}

#[test]
fn deal_shuffles() {
    let mut rng = StdRng::seed_from_u64(1);
    let hands = deal(&mut rng);
    let unshuffled = deal_deck(generate_deck());
    assert_ne!(hands, unshuffled);
}

#[test]
fn deal_deck_is_round_robin_from_the_top() {
    let deck = generate_deck();
    let hands = deal_deck(deck.clone());
    assert_eq!(hands[0][0], deck[51]);
    assert_eq!(hands[1][0], deck[50]);
    assert_eq!(hands[3][0], deck[48]);
    assert_eq!(hands[0][1], deck[47]);
    assert_eq!(hands[3][12], deck[0]);
}

#[test]
fn follow_suit_scenario() {
    let hand = vec![c(Suit::Clubs, 2), c(Suit::Hearts, 5), c(Suit::Spades, 13)];
    assert_eq!(is_legal(&hand, 1, false, Some(Suit::Clubs)), LegalResult::MustFollowSuit(Suit::Clubs));
    assert_eq!(is_legal(&hand, 0, false, Some(Suit::Clubs)), LegalResult::Legal);
}

#[test]
fn forced_hearts_lead_is_legal() {
    let hand = vec![c(Suit::Hearts, 5)];
    assert_eq!(is_legal(&hand, 0, false, None), LegalResult::Legal);
}

#[test]
fn out_of_range_index() {
    let hand = vec![c(Suit::Hearts, 5), c(Suit::Clubs, 9)];
    assert_eq!(is_legal(&hand, 2, false, None), LegalResult::OutOfRange);
    assert_eq!(is_legal(&Vec::new(), 0, true, None), LegalResult::OutOfRange);
}

#[test]
fn hearts_not_yet_broken() {
    let hand = vec![c(Suit::Hearts, 5), c(Suit::Clubs, 9)];
    assert_eq!(is_legal(&hand, 0, false, None), LegalResult::HeartsNotYetBroken);
    assert_eq!(is_legal(&hand, 0, true, None), LegalResult::Legal);
    // void in the led suit, a non-Heart could be discarded instead
    assert_eq!(is_legal(&hand, 0, false, Some(Suit::Spades)), LegalResult::HeartsNotYetBroken);
    // Hearts led: following with a Heart is fine
    assert_eq!(is_legal(&hand, 0, false, Some(Suit::Hearts)), LegalResult::Legal);
}

#[test]
fn off_suit_rejected_for_every_led_suit() {
    let suits = [Suit::Hearts, Suit::Diamonds, Suit::Spades, Suit::Clubs];
    let hand = vec![c(Suit::Hearts, 3), c(Suit::Diamonds, 4), c(Suit::Spades, 5), c(Suit::Clubs, 6)];
    for led in suits {
        for (i, card) in hand.iter().enumerate() {
            let v = is_legal(&hand, i as u8, true, Some(led));
            if card.suit == led {
                assert_eq!(v, LegalResult::Legal);
            } else {
                assert_eq!(v, LegalResult::MustFollowSuit(led));
            }
        }
    }
}

#[test]
fn legal_indices_lists_legal_plays() {
    let hand = vec![c(Suit::Clubs, 2), c(Suit::Hearts, 5), c(Suit::Spades, 13), c(Suit::Clubs, 10)];
    assert_eq!(legal_indices(&hand, false, Some(Suit::Clubs)), vec![0, 3]);
    assert_eq!(legal_indices(&hand, false, None), vec![0, 2, 3]);
    assert_eq!(legal_indices(&hand, true, Some(Suit::Diamonds)), vec![0, 1, 2, 3]);
}

#[test]
fn completed_trick_scenario() {
    let trick = vec![c(Suit::Diamonds, 13), c(Suit::Spades, 12), c(Suit::Hearts, 3), c(Suit::Hearts, 7)];
    assert_eq!(trick_winner(&trick), 0);
    assert_eq!(trick_points(&trick), 15);
    assert!(breaks_hearts(&trick));
}

#[test]
fn winner_is_highest_of_led_suit_in_any_order() {
    let cards = [c(Suit::Clubs, 5), c(Suit::Clubs, 11), c(Suit::Spades, 14), c(Suit::Clubs, 3)];
    let orders = [[0, 1, 2, 3], [0, 3, 2, 1], [3, 2, 1, 0], [1, 0, 3, 2]];
    for order in orders {
        let trick: Vec<Card> = order.iter().map(|&i| cards[i]).collect();
        assert_eq!(trick[trick_winner(&trick)], c(Suit::Clubs, 11));
    }
    let plain = vec![c(Suit::Diamonds, 2), c(Suit::Clubs, 9), c(Suit::Diamonds, 4)];
    assert_eq!(trick_winner(&plain), 2);
    assert_eq!(trick_points(&plain), 0);
    assert!(!breaks_hearts(&plain));
}

#[test]
fn queen_of_spades_alone_breaks_hearts() {
    let trick = vec![c(Suit::Spades, 2), c(Suit::Spades, 12)];
    assert!(breaks_hearts(&trick));
    assert_eq!(trick_points(&trick), 13);
}

#[test]
fn shoot_the_moon_inverts() {
    assert_eq!(apply_shoot_the_moon(&vec![26, 0, 0, 0]), vec![0, 26, 26, 26]);
    assert_eq!(apply_shoot_the_moon(&vec![0, 0, 26, 0]), vec![26, 26, 0, 26]);
}

#[test]
fn ordinary_round_keeps_points() {
    let r = apply_shoot_the_moon(&vec![13, 5, 8, 0]);
    assert_eq!(r, vec![13, 5, 8, 0]);
    assert_eq!(r.iter().sum::<u32>(), 26);
}

#[test]
fn match_end_and_tied_winners() {
    assert!(!match_over(&vec![10, 99, 0, 50], 100));
    assert!(match_over(&vec![10, 100, 0, 50], 100));
    assert_eq!(winners(&vec![30, 100, 12, 12]), vec![2, 3]);
    assert_eq!(winners(&vec![30, 100, 12, 40]), vec![2]);
}

#[test]
fn random_player_plays_legal_cards() {
    let hand = vec![c(Suit::Clubs, 2), c(Suit::Hearts, 5), c(Suit::Spades, 13), c(Suit::Clubs, 10)];
    let mut agent = RandomPlayer::new(9);
    let mut seen_three = false;
    for _ in 0..200 {
        let i = agent.pick(&hand, false, Some(Suit::Clubs));
        assert!(i == 0 || i == 3);
        seen_three |= i == 3;
        let j = agent.turn(&hand, 0, vec![c(Suit::Diamonds, 4)], false);
        assert!(j == 0 || j == 2 || j == 3);
    }
    assert!(seen_three);
}

fn last_trick_state() -> GameState {
    let last = [c(Suit::Diamonds, 13), c(Suit::Spades, 12), c(Suit::Hearts, 3), c(Suit::Hearts, 7)];
    let taken: Vec<Card> = generate_deck().into_iter().filter(|k| !last.contains(k)).collect();
    GameState {
        kinds: vec![AgentKind::Human, AgentKind::Random, AgentKind::Random, AgentKind::Random],
        scores: vec![0, 0, 0, 0],
        hands: vec![
            vec![c(Suit::Diamonds, 13)],
            vec![c(Suit::Spades, 12)],
            vec![c(Suit::Hearts, 3)],
            vec![c(Suit::Hearts, 7)],
        ],
        next_player: 0,
        leader: 0,
        trick: Vec::new(),
        hearts_broken: false,
        round_points: vec![0, 2, 5, 4],
        taken,
        tricks_played: 12,
        round_number: 1,
        phase: Phase::Playing,
    }
}

#[test]
fn last_trick_scores_round() {
    let mut g = last_trick_state();
    assert_eq!(g.run_turn(0), TurnOutcome::Played);
    assert_eq!(g.run_turn(0), TurnOutcome::Played);
    assert!(!g.hearts_broken);
    assert_eq!(g.run_turn(0), TurnOutcome::Played);
    assert_eq!(g.run_turn(0), TurnOutcome::RoundOver);
    assert!(g.hearts_broken);
    assert_eq!(g.round_points, vec![15, 2, 5, 4]);
    assert_eq!(g.scores, vec![15, 2, 5, 4]);
    assert_eq!(g.phase, Phase::RoundOver);
    assert_eq!(g.leader, 0);
    assert_eq!(g.taken.len(), 52);
    assert_eq!(sorted_keys(&g.taken), sorted_keys(&generate_deck()));
}

#[test]
fn moon_shot_in_last_trick() {
    let mut g = last_trick_state();
    g.round_points = vec![11, 0, 0, 0];
    for _ in 0..4 {
        g.run_turn(0);
    }
    assert_eq!(g.scores, vec![0, 26, 26, 26]);
}

#[test]
fn match_ends_at_target() {
    let mut g = last_trick_state();
    g.scores = vec![90, 20, 30, 18];
    for _ in 0..3 {
        g.run_turn(0);
    }
    assert_eq!(g.run_turn(0), TurnOutcome::MatchOver(vec![1, 3]));
    assert_eq!(g.scores, vec![105, 22, 35, 22]);
    assert_eq!(g.phase, Phase::MatchOver);
}

#[test]
fn rejected_play_changes_nothing() {
    let mut g = last_trick_state();
    g.run_turn(0);
    assert_eq!(g.run_turn(3), TurnOutcome::Rejected(LegalResult::OutOfRange));
    assert_eq!(g.next_player, 1);
    assert_eq!(g.trick, vec![c(Suit::Diamonds, 13)]);
}

#[test]
fn new_game_leader_holds_two_of_clubs() {
    let mut rng = StdRng::seed_from_u64(5);
    let g = GameState::new(1, &mut rng);
    assert_eq!(g.kinds, vec![AgentKind::Human, AgentKind::Random, AgentKind::Random, AgentKind::Random]);
    assert!(g.hands[g.leader].contains(&c(Suit::Clubs, 2)));
    assert_eq!(g.next_player, g.leader);
    assert_eq!(g.round_number, 1);
    assert!(!g.hearts_broken);
}

#[test]
fn random_round_conserves_cards_and_points() {
    let mut rng = StdRng::seed_from_u64(11);
    let mut g = GameState::new(0, &mut rng);
    let mut agent = RandomPlayer::new(3);
    let mut played: Vec<Card> = Vec::new();
    let mut broken = false;
    let mut turns = 0;
    while g.phase == Phase::Playing {
        let seat = g.next_player;
        let i = agent.turn(&g.hands[seat], g.scores[seat], g.trick.clone(), g.hearts_broken);
        let card = g.hands[seat][i as usize];
        let out = g.run_turn(i);
        assert!(!matches!(out, TurnOutcome::Rejected(_)));
        played.push(card);
        assert!(!broken || g.hearts_broken);
        broken = g.hearts_broken;
        turns += 1;
    }
    assert_eq!(turns, 52);
    assert_eq!(sorted_keys(&played), sorted_keys(&generate_deck()));
    assert_eq!(sorted_keys(&g.taken), sorted_keys(&played));
    let total: u32 = g.round_points.iter().sum();
    assert_eq!(total, 26);
    let awarded: u32 = g.scores.iter().sum();
    assert!(awarded == 26 || awarded == 78);
}

#[test]
fn scripted_run_plays_to_the_end() {
    let mut rng = StdRng::seed_from_u64(17);
    let mut g = GameState::new(4, &mut rng);
    let choices: Vec<u8> = (0..20000u32).map(|i| (i % 13) as u8).collect();
    let (used, won) = g.run(&choices, &mut rng);
    assert!(used < choices.len());
    assert_eq!(g.phase, Phase::MatchOver);
    assert!(g.scores.iter().any(|&s| s >= 100));
    assert!(g.scores.iter().all(|&s| s <= 125));
    assert!(g.round_number <= 16);
    let low = *g.scores.iter().min().unwrap();
    let expected: Vec<usize> = (0..4).filter(|&p| g.scores[p] == low).collect();
    assert_eq!(won, Some(expected));
    assert_eq!(g.run(&choices, &mut rng), (0, None));
}
