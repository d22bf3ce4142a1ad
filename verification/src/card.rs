//! Immutable card value types and their scoring/naming helpers.

use vstd::prelude::*;
use vstd::string::StringExecFns;

verus! {

broadcast use vstd::string::group_string_axioms;

/// The lowercase form that `str::to_lowercase` computes; a function of
/// the characters alone.
pub uninterp spec fn lower_of(s: Seq<char>) -> Seq<char>;

/// Relies on `str::to_lowercase`: the Unicode lowercase form of the
/// string, a function of its characters alone.
#[verifier::external_body]
fn lowercase(s: &String) -> (r: String)
    ensures
        r@ == lower_of(s@),
{
    s.to_lowercase()
}

/// The thirteen ranks of a playing card.
#[derive(Clone, Copy, Debug, PartialEq, Eq, Structural)]
pub enum CardValue {
    Ace,
    Two,
    Three,
    Four,
    Five,
    Six,
    Seven,
    Eight,
    Nine,
    Ten,
    Jack,
    Queen,
    King,
}

/// The four suits of a playing card.
#[derive(Clone, Copy, Debug, PartialEq, Eq, Structural)]
pub enum CardSuit {
    Clubs,
    Diamonds,
    Hearts,
    Spades,
}

/// An immutable (rank, suit) pair; cards have no identity beyond value
/// equality.
#[derive(Clone, Copy, Debug, PartialEq, Eq, Structural)]
pub struct Card {
    pub value: CardValue,
    pub suit: CardSuit,
}

/// Position of a rank in the fixed Ace..King order.
pub open spec fn value_index(v: CardValue) -> int {
    match v {
        CardValue::Ace => 0,
        CardValue::Two => 1,
        CardValue::Three => 2,
        CardValue::Four => 3,
        CardValue::Five => 4,
        CardValue::Six => 5,
        CardValue::Seven => 6,
        CardValue::Eight => 7,
        CardValue::Nine => 8,
        CardValue::Ten => 9,
        CardValue::Jack => 10,
        CardValue::Queen => 11,
        CardValue::King => 12,
    }
}

/// Position of a suit in the fixed Clubs..Spades order.
pub open spec fn suit_index(s: CardSuit) -> int {
    match s {
        CardSuit::Clubs => 0,
        CardSuit::Diamonds => 1,
        CardSuit::Hearts => 2,
        CardSuit::Spades => 3,
    }
}

/// Position of a card among the 52 distinct rank/suit combinations.
pub open spec fn card_index(c: Card) -> int {
    suit_index(c.suit) * 13 + value_index(c.value)
}

/// The rank at a given position in the fixed Ace..King order.
pub open spec fn value_of_index(i: int) -> CardValue {
    if i == 0 {
        CardValue::Ace
    } else if i == 1 {
        CardValue::Two
    } else if i == 2 {
        CardValue::Three
    } else if i == 3 {
        CardValue::Four
    } else if i == 4 {
        CardValue::Five
    } else if i == 5 {
        CardValue::Six
    } else if i == 6 {
        CardValue::Seven
    } else if i == 7 {
        CardValue::Eight
    } else if i == 8 {
        CardValue::Nine
    } else if i == 9 {
        CardValue::Ten
    } else if i == 10 {
        CardValue::Jack
    } else if i == 11 {
        CardValue::Queen
    } else {
        CardValue::King
    }
}

/// The suit at a given position in the fixed Clubs..Spades order.
pub open spec fn suit_of_index(i: int) -> CardSuit {
    if i == 0 {
        CardSuit::Clubs
    } else if i == 1 {
        CardSuit::Diamonds
    } else if i == 2 {
        CardSuit::Hearts
    } else {
        CardSuit::Spades
    }
}

/// The card at a given position among the 52 combinations; inverse of
/// `card_index`.
pub open spec fn card_of_index(i: int) -> Card {
    Card { value: value_of_index(i % 13), suit: suit_of_index(i / 13) }
}

/// `card_index` and `card_of_index` are mutually inverse bijections
/// between cards and positions `0..52`.
pub proof fn lemma_card_index_bijective(c: Card, i: int)
    requires
        0 <= i < 52,
    ensures
        0 <= card_index(c) < 52,
        card_of_index(card_index(c)) == c,
        card_index(card_of_index(i)) == i,
{
}

/// Face-capped score of a rank: Ace counts 1, number cards their rank,
/// face cards 10.
pub open spec fn card_score(v: CardValue) -> int {
    match v {
        CardValue::Ace => 1,
        CardValue::Two => 2,
        CardValue::Three => 3,
        CardValue::Four => 4,
        CardValue::Five => 5,
        CardValue::Six => 6,
        CardValue::Seven => 7,
        CardValue::Eight => 8,
        CardValue::Nine => 9,
        CardValue::Ten => 10,
        CardValue::Jack => 10,
        CardValue::Queen => 10,
        CardValue::King => 10,
    }
}

/// Executable face-capped score of a rank.
pub fn card_points(v: CardValue) -> (n: u32)
    ensures
        n == card_score(v),
{
    match v {
        CardValue::Ace => 1,
        CardValue::Two => 2,
        CardValue::Three => 3,
        CardValue::Four => 4,
        CardValue::Five => 5,
        CardValue::Six => 6,
        CardValue::Seven => 7,
        CardValue::Eight => 8,
        CardValue::Nine => 9,
        CardValue::Ten => 10,
        CardValue::Jack => 10,
        CardValue::Queen => 10,
        CardValue::King => 10,
    }
}

/// The rank at a given position, executable counterpart of
/// `value_of_index`.
pub fn value_at(i: usize) -> (v: CardValue)
    requires
        i < 13,
    ensures
        v == value_of_index(i as int),
{
    if i == 0 {
        CardValue::Ace
    } else if i == 1 {
        CardValue::Two
    } else if i == 2 {
        CardValue::Three
    } else if i == 3 {
        CardValue::Four
    } else if i == 4 {
        CardValue::Five
    } else if i == 5 {
        CardValue::Six
    } else if i == 6 {
        CardValue::Seven
    } else if i == 7 {
        CardValue::Eight
    } else if i == 8 {
        CardValue::Nine
    } else if i == 9 {
        CardValue::Ten
    } else if i == 10 {
        CardValue::Jack
    } else if i == 11 {
        CardValue::Queen
    } else {
        CardValue::King
    }
}

/// The suit at a given position, executable counterpart of
/// `suit_of_index`.
pub fn suit_at(i: usize) -> (s: CardSuit)
    requires
        i < 4,
    ensures
        s == suit_of_index(i as int),
{
    if i == 0 {
        CardSuit::Clubs
    } else if i == 1 {
        CardSuit::Diamonds
    } else if i == 2 {
        CardSuit::Hearts
    } else {
        CardSuit::Spades
    }
}

/// The card at a given position among the 52 combinations, executable
/// counterpart of `card_of_index`.
pub fn card_at(i: usize) -> (c: Card)
    requires
        i < 52,
    ensures
        c == card_of_index(i as int),
{
    Card { value: value_at(i % 13), suit: suit_at(i / 13) }
}

/// Lowercase spellings under which a rank is accepted.
pub open spec fn is_value_name(s: Seq<char>) -> bool {
    ||| s == "ace"@
    ||| s == "2"@
    ||| s == "3"@
    ||| s == "4"@
    ||| s == "5"@
    ||| s == "6"@
    ||| s == "7"@
    ||| s == "8"@
    ||| s == "9"@
    ||| s == "10"@
    ||| s == "jack"@
    ||| s == "queen"@
    ||| s == "king"@
}

/// Lowercase spellings under which a suit is accepted.
pub open spec fn is_suit_name(s: Seq<char>) -> bool {
    ||| s == "clubs"@
    ||| s == "diamonds"@
    ||| s == "hearts"@
    ||| s == "spades"@
}

/// Name of the image file for a card given as rank and suit words, in
/// any letter case: the lowercased rank, `_of_`, and the lowercased
/// suit. A rank word outside the accepted spellings is rejected first,
/// then a suit word outside them.
pub fn get_card_file(value: String, suit: String) -> (r: Result<String, &'static str>)
    ensures
        match r {
            Ok(name) => {
                &&& is_value_name(lower_of(value@))
                &&& is_suit_name(lower_of(suit@))
                &&& name@ == lower_of(value@) + "_of_"@ + lower_of(suit@)
            },
            Err(msg) => {
                &&& !(is_value_name(lower_of(value@)) && is_suit_name(lower_of(suit@)))
                &&& (msg@ == "invalid card value"@ <==> !is_value_name(lower_of(value@)))
                &&& (msg@ == "invalid card suit"@ <==> is_value_name(lower_of(value@))
                    && !is_suit_name(lower_of(suit@)))
            },
        },
{
    let value_lower = lowercase(&value);
    let suit_lower = lowercase(&suit);
    if !is_valid_value_word(&value_lower) {
        proof {
            reveal_strlit("invalid card value");
            reveal_strlit("invalid card suit");
            assert("invalid card value"@.len() == 18);
            assert("invalid card suit"@.len() == 17);
            assert("invalid card value"@ != "invalid card suit"@);
        }
        return Err("invalid card value");
    }
    if !is_valid_suit_word(&suit_lower) {
        proof {
            reveal_strlit("invalid card value");
            reveal_strlit("invalid card suit");
            assert("invalid card value"@.len() == 18);
            assert("invalid card suit"@.len() == 17);
            assert("invalid card value"@ != "invalid card suit"@);
        }
        return Err("invalid card suit");
    }
    Ok(value_lower.concat("_of_").concat(suit_lower.as_str()))
}

/// Whether an already-lowercased rank word is accepted.
fn is_valid_value_word(s: &String) -> (r: bool)
    ensures
        r == is_value_name(s@),
{
    let r = *s == "ace".to_owned() || *s == "2".to_owned() || *s == "3".to_owned() || *s
        == "4".to_owned() || *s == "5".to_owned() || *s == "6".to_owned() || *s == "7".to_owned()
        || *s == "8".to_owned() || *s == "9".to_owned() || *s == "10".to_owned() || *s
        == "jack".to_owned() || *s == "queen".to_owned() || *s == "king".to_owned();
    r
}

/// Whether an already-lowercased suit word is accepted.
fn is_valid_suit_word(s: &String) -> (r: bool)
    ensures
        r == is_suit_name(s@),
{
    let r = *s == "clubs".to_owned() || *s == "diamonds".to_owned() || *s == "hearts".to_owned()
        || *s == "spades".to_owned();
    r
}

} // verus!
