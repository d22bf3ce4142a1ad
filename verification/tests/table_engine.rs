use blackjack_backend::card::{Card, CardSuit, CardValue};
use blackjack_backend::table::{hand_total, GameError, PlayerCard, Table};

fn card(value: CardValue) -> Card {
    Card { value, suit: CardSuit::Clubs }
}

fn hand(values: &[CardValue]) -> Vec<PlayerCard> {
    values.iter().map(|v| PlayerCard { card: card(*v), visible: true }).collect()
}

#[test]
fn hand_total_one_ace_invariant() {
    // Other cards sum (face-capped) to 15: hard = 16, soft = 26.
    let h = hand(&[CardValue::Ace, CardValue::Five, CardValue::King]);
    assert_eq!(hand_total(&h), (16, 26));
}

#[test]
fn hand_total_no_ace() {
    let h = hand(&[CardValue::King, CardValue::Queen]);
    assert_eq!(hand_total(&h), (20, 20));
}

#[test]
fn hand_total_two_aces_boosts_only_one() {
    let h = hand(&[CardValue::Ace, CardValue::Ace, CardValue::Nine]);
    assert_eq!(hand_total(&h), (11, 21));
}

#[test]
fn hand_total_empty_hand() {
    let h: Vec<PlayerCard> = Vec::new();
    assert_eq!(hand_total(&h), (0, 0));
}

#[test]
fn add_then_remove_restores_table() {
    let mut t = Table::new(1, Vec::new());
    t.add_player(7).unwrap();
    t.add_player(8).unwrap();
    assert_eq!(t.players.len(), 2);
    assert!(t.remove_player(8));
    assert_eq!(t.players.len(), 1);
    assert!(t.get_player(8).is_none());
    assert_eq!(t.get_player(7), Some(0));
}

#[test]
fn duplicate_player_is_rejected() {
    let mut t = Table::new(1, Vec::new());
    assert_eq!(t.add_player(7), Ok(()));
    assert_eq!(t.add_player(7), Err(GameError::DuplicatePlayer));
    assert_eq!(t.players.len(), 1);
}

#[test]
fn remove_absent_player_reports_false() {
    let mut t = Table::new(1, Vec::new());
    assert!(!t.remove_player(5));
}

#[test]
fn deal_from_empty_shoe_fails_cleanly() {
    let mut t = Table::new(1, Vec::new());
    t.add_player(1).unwrap();
    assert_eq!(t.add_card(1), Err(GameError::ShoeExhausted));
    assert_eq!(t.add_card_dealer(), Err(GameError::ShoeExhausted));
    // The failed draws corrupted nothing.
    assert_eq!(t.players.len(), 1);
    assert!(t.players[0].hand.is_empty());
    assert!(t.dealer.is_empty());
    assert!(t.deck.is_empty());
}

#[test]
fn deal_to_unknown_player_fails() {
    let mut t = Table::new(1, vec![card(CardValue::Two)]);
    assert_eq!(t.add_card(9), Err(GameError::PlayerNotFound));
    assert_eq!(t.deck.len(), 1);
}

#[test]
fn check_winner_unknown_player_fails() {
    let t = Table::new(1, Vec::new());
    assert_eq!(t.check_winner(3), Err(GameError::PlayerNotFound));
}

#[test]
fn deal_draws_from_tail_face_up() {
    let deck = vec![card(CardValue::Two), card(CardValue::Nine)];
    let mut t = Table::new(1, deck);
    t.add_player(1).unwrap();
    t.add_card(1).unwrap();
    assert_eq!(t.players[0].hand.len(), 1);
    assert_eq!(t.players[0].hand[0].card.value, CardValue::Nine);
    assert!(t.players[0].hand[0].visible);
    assert_eq!(t.deck.len(), 1);
}

#[test]
fn dealer_card_is_dealt_face_down_then_revealed() {
    let deck = vec![card(CardValue::Two), card(CardValue::Nine)];
    let mut t = Table::new(1, deck);
    t.add_card_dealer().unwrap();
    t.add_card_dealer().unwrap();
    assert!(!t.dealer[0].visible);
    assert!(!t.dealer[1].visible);
    t.reveal_dealer_hand();
    assert!(t.dealer[0].visible);
    assert!(t.dealer[1].visible);
    // Idempotent.
    t.reveal_dealer_hand();
    assert!(t.dealer[0].visible && t.dealer[1].visible);
    assert_eq!(t.dealer[0].card.value, CardValue::Nine);
    assert_eq!(t.dealer[1].card.value, CardValue::Two);
}

/// The table's winner rule, applied to the two hands' totals. The 21
/// ceiling deliberately guards only the soft-total branch; this
/// asymmetry is part of the rule as specified.
fn winner_oracle(player: (u32, u32), dealer: (u32, u32)) -> bool {
    let (ph, ps) = player;
    let (dh, ds) = dealer;
    (dh > ph || dh > ps) || ((ds > ph || ds > ps) && dh <= 21)
}

#[test]
fn end_to_end_round_matches_oracle() {
    // Pops come from the tail: deals are Ten, Ten (player 1), Five,
    // King (player 2), Nine, Nine (dealer).
    let deck = vec![
        card(CardValue::Nine),
        card(CardValue::Nine),
        card(CardValue::King),
        card(CardValue::Five),
        card(CardValue::Ten),
        card(CardValue::Ten),
    ];
    let mut t = Table::new(42, deck);
    t.add_player(1).unwrap();
    t.add_player(2).unwrap();
    t.add_card(1).unwrap();
    t.add_card(1).unwrap();
    t.add_card(2).unwrap();
    t.add_card(2).unwrap();
    t.add_card_dealer().unwrap();
    t.add_card_dealer().unwrap();
    assert!(!t.dealer[0].visible);
    t.reveal_dealer_hand();

    let dealer_totals = hand_total(&t.dealer);
    assert_eq!(dealer_totals, (18, 18));
    let mut expected: Vec<u128> = Vec::new();
    for p in &t.players {
        if winner_oracle(hand_total(&p.hand), dealer_totals) {
            expected.push(p.id);
        }
    }
    // Player 1 holds 20 against the dealer's 18; player 2 holds 15.
    assert_eq!(expected, vec![2]);
    assert_eq!(t.check_winners_player(), expected);
    assert_eq!(t.check_winner(1), Ok(false));
    assert_eq!(t.check_winner(2), Ok(true));
}
