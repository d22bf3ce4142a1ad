use blackjack_backend::card::{Card, CardSuit, CardValue};
use blackjack_backend::deck::build_shoe;
use blackjack_backend::game::Blackjack;

fn all_values() -> Vec<CardValue> {
    vec![
        CardValue::Ace,
        CardValue::Two,
        CardValue::Three,
        CardValue::Four,
        CardValue::Five,
        CardValue::Six,
        CardValue::Seven,
        CardValue::Eight,
        CardValue::Nine,
        CardValue::Ten,
        CardValue::Jack,
        CardValue::Queen,
        CardValue::King,
    ]
}

fn all_suits() -> Vec<CardSuit> {
    vec![CardSuit::Clubs, CardSuit::Diamonds, CardSuit::Hearts, CardSuit::Spades]
}

fn count_card(shoe: &[Card], value: CardValue, suit: CardSuit) -> usize {
    shoe.iter().filter(|c| c.value == value && c.suit == suit).count()
}

#[test]
fn shoe_length_and_counts_per_deck() {
    for deck_count in [0usize, 1, 3] {
        let shoe = build_shoe(deck_count);
        assert_eq!(shoe.len(), 52 * deck_count);
        for v in all_values() {
            for s in all_suits() {
                assert_eq!(count_card(&shoe, v, s), deck_count);
            }
        }
    }
}

#[test]
fn empty_shoe_is_accepted() {
    let shoe = build_shoe(0);
    assert!(shoe.is_empty());
}

#[test]
fn create_deck_is_three_decks() {
    let deck = Blackjack::create_deck();
    assert_eq!(deck.len(), 156);
    for v in all_values() {
        for s in all_suits() {
            assert_eq!(count_card(&deck, v, s), 3);
        }
    }
}

fn suit_slot(s: CardSuit) -> usize {
    match s {
        CardSuit::Clubs => 0,
        CardSuit::Diamonds => 1,
        CardSuit::Hearts => 2,
        CardSuit::Spades => 3,
    }
}

#[test]
fn shuffle_first_position_roughly_uniform() {
    // Statistical check of shuffle uniformity: over many single-deck
    // shoes, the suit of the first card should be close to uniform.
    let trials = 2000usize;
    let mut counts = [0usize; 4];
    for _ in 0..trials {
        let shoe = build_shoe(1);
        counts[suit_slot(shoe[0].suit)] += 1;
    }
    let expected = trials as f64 / 4.0;
    for c in counts {
        let deviation = (c as f64 - expected).abs() / expected;
        assert!(
            deviation < 0.3,
            "suit count {} deviates {} from expected {}",
            c,
            deviation,
            expected
        );
    }
}
