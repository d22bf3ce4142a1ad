//! Multi-deck shoe construction: a configurable number of complete
//! 52-card decks, uniformly shuffled.

use vstd::prelude::*;
use crate::card::{card_at, card_index, card_of_index, lemma_card_index_bijective, Card};
use rand::seq::SliceRandom;

verus! {

broadcast use
    vstd::seq_lib::group_to_multiset_ensures,
    vstd::multiset::group_multiset_axioms,
    vstd::multiset::group_multiset_properties;

/// How many times a card occurs in a sequence of cards.
pub open spec fn count_of(s: Seq<Card>, c: Card) -> nat {
    s.to_multiset().count(c)
}

/// Relies on `rand::seq::SliceRandom::shuffle`: permutes the slice in
/// place, so the length and the multiset of cards are unchanged. The
/// resulting order is random and nothing is promised of it.
#[verifier::external_body]
fn shuffle_cards(deck: &mut Vec<Card>)
    ensures
        final(deck)@.len() == old(deck)@.len(),
        final(deck)@.to_multiset() == old(deck)@.to_multiset(),
{
    let mut rng = rand::rng();
    deck.as_mut_slice().shuffle(&mut rng);
}

/// Builds a shoe of `deck_count` complete decks and shuffles it: the
/// result holds `52 * deck_count` cards, exactly `deck_count` copies of
/// each of the 52 rank/suit combinations, in a random order. A count of
/// zero yields an empty shoe.
pub fn build_shoe(deck_count: usize) -> (shoe: Vec<Card>)
    requires
        52 * deck_count <= usize::MAX,
    ensures
        shoe@.len() == 52 * deck_count,
        forall|c: Card| count_of(shoe@, c) == deck_count,
{
    let mut shoe: Vec<Card> = Vec::new();
    assert(forall|c: Card| count_of(shoe@, c) == 0) by {
        assert(forall|c: Card| !shoe@.contains(c));
    }
    let mut i: usize = 0;
    while i < 52
        invariant
            i <= 52,
            52 * deck_count <= usize::MAX,
            shoe@.len() == i * deck_count,
            forall|c: Card| card_index(c) < i ==> count_of(shoe@, c) == deck_count,
            forall|c: Card| card_index(c) >= i ==> count_of(shoe@, c) == 0,
        decreases 52 - i,
    {
        let card = card_at(i);
        proof {
            lemma_card_index_bijective(card, i as int);
            assert(i * deck_count + deck_count <= 52 * deck_count) by (nonlinear_arith)
                requires i < 52;
        }
        let mut n: usize = 0;
        while n < deck_count
            invariant
                n <= deck_count,
                i < 52,
                card == card_of_index(i as int),
                card_index(card) == i,
                i * deck_count + deck_count <= 52 * deck_count <= usize::MAX,
                shoe@.len() == i * deck_count + n,
                count_of(shoe@, card) == n,
                forall|c: Card| card_index(c) < i ==> count_of(shoe@, c) == deck_count,
                forall|c: Card| card_index(c) > i ==> count_of(shoe@, c) == 0,
            decreases deck_count - n,
        {
            let ghost pre = shoe@;
            shoe.push(card);
            proof {
                assert(shoe@ == pre.push(card));
                assert(shoe@.to_multiset() == pre.to_multiset().insert(card));
                assert(count_of(shoe@, card) == count_of(pre, card) + 1);
                assert forall|c: Card| card_index(c) < i implies count_of(shoe@, c)
                    == deck_count by {
                    assert(c != card);
                    assert(count_of(shoe@, c) == count_of(pre, c));
                    assert(count_of(pre, c) == deck_count);
                }
                assert forall|c: Card| card_index(c) > i implies count_of(shoe@, c) == 0 by {
                    assert(c != card);
                    assert(count_of(shoe@, c) == count_of(pre, c));
                    assert(count_of(pre, c) == 0);
                }
            }
            n = n + 1;
        }
        proof {
            assert forall|c: Card| card_index(c) < i + 1 implies count_of(shoe@, c)
                == deck_count by {
                if card_index(c) == i {
                    lemma_card_index_bijective(c, i as int);
                    assert(c == card);
                }
            }
            assert((i + 1) * deck_count == i * deck_count + deck_count) by (nonlinear_arith);
        }
        i = i + 1;
    }
    let ghost unshuffled = shoe@;
    proof {
        assert forall|c: Card| count_of(unshuffled, c) == deck_count by {
            lemma_card_index_bijective(c, 0);
        }
    }
    shuffle_cards(&mut shoe);
    proof {
        assert forall|c: Card| count_of(shoe@, c) == deck_count by {
            assert(count_of(unshuffled, c) == deck_count);
        }
    }
    shoe
}

} // verus!
