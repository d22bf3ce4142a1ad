//! The table/hand engine: one shoe, the dealer's hand and all seated
//! players' hands, with dealing, blackjack hand scoring and win
//! determination.

use vstd::prelude::*;
use crate::card::{card_points, card_score, Card, CardValue};

verus! {

/// Ways a table operation can fail. Every failure is a value returned to
/// the caller; no operation panics or corrupts the table.
#[derive(Clone, Copy, Debug, PartialEq, Eq, Structural)]
pub enum GameError {
    /// The player id is already seated at the table.
    DuplicatePlayer,
    /// No seated player has the given id.
    PlayerNotFound,
    /// The shoe is empty; drawing is a hard error, never a reshuffle.
    ShoeExhausted,
}

/// A card that has been dealt, together with its visibility (face-up or
/// face-down).
#[derive(Clone, Copy, Debug, PartialEq, Eq, Structural)]
pub struct PlayerCard {
    pub card: Card,
    pub visible: bool,
}

/// A seated player: an externally assigned identifier, unique within its
/// table, and the player's hand in deal order.
pub struct Player {
    pub id: u128,
    pub hand: Vec<PlayerCard>,
}

/// Cap on cards held by one table (shoe plus any one hand); keeps every
/// hand total well inside `u32`.
pub const MAX_TABLE_CARDS: usize = 100000000;

/// One blackjack table: its shoe (drawn from the tail), the dealer's hand
/// and the seated players.
pub struct Table {
    pub id: u128,
    pub players: Vec<Player>,
    pub deck: Vec<Card>,
    pub dealer: Vec<PlayerCard>,
}

/// Some seated player has the given id.
pub open spec fn has_player(ps: Seq<Player>, id: u128) -> bool {
    exists|i: int| 0 <= i < ps.len() && ps[i].id == id
}

/// Index of the first seated player with the given id (the length if
/// there is none).
pub open spec fn first_player(ps: Seq<Player>, id: u128) -> int
    decreases ps.len(),
{
    if ps.len() == 0 {
        0
    } else if ps[0].id == id {
        0
    } else {
        1 + first_player(ps.drop_first(), id)
    }
}

/// `first_player` is exactly the first index whose player has the id.
pub proof fn lemma_first_player_characterizes(ps: Seq<Player>, id: u128, i: int)
    requires
        0 <= i < ps.len(),
        ps[i].id == id,
        forall|j: int| 0 <= j < i ==> ps[j].id != id,
    ensures
        first_player(ps, id) == i,
        has_player(ps, id),
    decreases ps.len(),
{
    if i > 0 {
        lemma_first_player_characterizes(ps.drop_first(), id, i - 1);
    }
}

/// Seating a new player and then removing the same id restores the
/// roster exactly: the player count is as before and no hand of that id
/// remains.
pub proof fn lemma_seat_then_remove_restores(ps: Seq<Player>, p: Player)
    requires
        !has_player(ps, p.id),
    ensures
        has_player(ps.push(p), p.id),
        first_player(ps.push(p), p.id) == ps.len(),
        ps.push(p).remove(ps.len() as int) == ps,
{
    let pushed = ps.push(p);
    assert(pushed[ps.len() as int] == p);
    assert forall|j: int| 0 <= j < ps.len() implies pushed[j].id != p.id by {
        assert(pushed[j] == ps[j]);
    }
    lemma_first_player_characterizes(pushed, p.id, ps.len() as int);
    assert(pushed.remove(ps.len() as int) =~= ps);
}

/// The cards of a hand, visibility stripped.
pub open spec fn cards_of(h: Seq<PlayerCard>) -> Seq<Card> {
    h.map_values(|pc: PlayerCard| pc.card)
}

/// Hand value counting every Ace as 1 and face cards as 10.
pub open spec fn hard_total(cs: Seq<Card>) -> int
    decreases cs.len(),
{
    if cs.len() == 0 {
        0
    } else {
        hard_total(cs.drop_last()) + card_score(cs.last().value)
    }
}

/// Number of Aces in a hand.
pub open spec fn ace_count(cs: Seq<Card>) -> nat
    decreases cs.len(),
{
    if cs.len() == 0 {
        0
    } else {
        ace_count(cs.drop_last()) + if cs.last().value is Ace {
            1nat
        } else {
            0nat
        }
    }
}

/// Hand value counting one Ace (if present) as 11 instead of 1.
pub open spec fn soft_total(cs: Seq<Card>) -> int {
    hard_total(cs) + if ace_count(cs) > 0 {
        10int
    } else {
        0int
    }
}

/// Face-capped sum of the non-Ace cards alone.
pub open spec fn non_ace_total(cs: Seq<Card>) -> int
    decreases cs.len(),
{
    if cs.len() == 0 {
        0
    } else {
        non_ace_total(cs.drop_last()) + if cs.last().value is Ace {
            0int
        } else {
            card_score(cs.last().value)
        }
    }
}

/// The hard total splits into the non-Ace sum plus one point per Ace.
pub proof fn lemma_hard_total_split(cs: Seq<Card>)
    ensures
        hard_total(cs) == non_ace_total(cs) + ace_count(cs),
    decreases cs.len(),
{
    if cs.len() > 0 {
        lemma_hard_total_split(cs.drop_last());
    }
}

/// A hand with exactly one Ace whose other cards sum (face-capped) to `S`
/// has hard total `S + 1` and soft total `S + 11`.
pub proof fn lemma_one_ace_totals(cs: Seq<Card>)
    requires
        ace_count(cs) == 1,
    ensures
        hard_total(cs) == non_ace_total(cs) + 1,
        soft_total(cs) == non_ace_total(cs) + 11,
{
    lemma_hard_total_split(cs);
}

/// The winner rule of the table: the comparison deliberately applies the
/// 21 ceiling only to the soft-total branch; this asymmetry is part of
/// the rule as specified, not the standard closest-to-21 rule.
pub open spec fn is_winner(p: Seq<Card>, d: Seq<Card>) -> bool {
    let ph = hard_total(p);
    let ps = soft_total(p);
    let dh = hard_total(d);
    let ds = soft_total(d);
    (dh > ph || dh > ps) || ((ds > ph || ds > ps) && dh <= 21)
}

/// Identifiers of the seated players that win against the dealer hand,
/// in seating order.
pub open spec fn winner_ids(ps: Seq<Player>, d: Seq<Card>) -> Seq<u128> {
    ps.filter(|p: Player| is_winner(cards_of(p.hand@), d)).map_values(|p: Player| p.id)
}

/// Computes the hard and soft totals of a hand under blackjack Ace
/// rules: the hard total counts every Ace as 1; the soft total counts
/// one Ace (the first) as 11. Face cards count 10, number cards their
/// rank.
pub fn hand_total(hand: &Vec<PlayerCard>) -> (totals: (u32, u32))
    requires
        10 * hand@.len() + 10 <= u32::MAX,
    ensures
        totals.0 == hard_total(cards_of(hand@)),
        totals.1 == soft_total(cards_of(hand@)),
{
    let ghost cs = cards_of(hand@);
    let mut hard: u32 = 0;
    let mut aces: usize = 0;
    let mut i: usize = 0;
    proof {
        assert(cs.take(0int) =~= Seq::<Card>::empty());
    }
    while i < hand.len()
        invariant
            i <= hand@.len(),
            10 * hand@.len() + 10 <= u32::MAX,
            cs == cards_of(hand@),
            cs.len() == hand@.len(),
            aces <= i,
            hard == hard_total(cs.take(i as int)),
            aces == ace_count(cs.take(i as int)),
            hard <= 10 * i,
        decreases hand@.len() - i,
    {
        let pc = hand[i];
        proof {
            assert(cs[i as int] == pc.card);
            assert(cs.take(i + 1int).drop_last() =~= cs.take(i as int));
            assert(cs.take(i + 1int).last() == pc.card);
        }
        hard = hard + card_points(pc.card.value);
        if matches!(pc.card.value, CardValue::Ace) {
            aces = aces + 1;
        }
        i = i + 1;
    }
    proof {
        assert(cs.take(cs.len() as int) =~= cs);
    }
    let soft: u32 = if aces > 0 {
        hard + 10
    } else {
        hard
    };
    (hard, soft)
}

impl Table {
    /// The table keeps unique player ids, and no hand can outgrow what
    /// the shoe could ever have supplied.
    pub open spec fn wf(self) -> bool {
        &&& forall|i: int, j: int|
            0 <= i < j < self.players@.len() ==> self.players@[i].id != self.players@[j].id
        &&& forall|i: int|
            0 <= i < self.players@.len() ==> #[trigger] self.players@[i].hand@.len()
                + self.deck@.len() <= MAX_TABLE_CARDS
        &&& self.dealer@.len() + self.deck@.len() <= MAX_TABLE_CARDS
    }

    /// A fresh table over the given shoe, with no players and an empty
    /// dealer hand.
    pub fn new(id: u128, deck: Vec<Card>) -> (t: Table)
        requires
            deck@.len() <= MAX_TABLE_CARDS,
        ensures
            t.wf(),
            t.id == id,
            t.players@ =~= Seq::<Player>::empty(),
            t.deck == deck,
            t.dealer@ =~= Seq::<PlayerCard>::empty(),
    {
        Table { id, players: Vec::new(), deck, dealer: Vec::new() }
    }

    /// Index of the seated player with the given id, or `None` if absent.
    pub fn get_player(&self, id: u128) -> (r: Option<usize>)
        ensures
            match r {
                Some(i) => {
                    &&& has_player(self.players@, id)
                    &&& i == first_player(self.players@, id)
                    &&& i < self.players@.len()
                    &&& self.players@[i as int].id == id
                    &&& forall|j: int| 0 <= j < i ==> self.players@[j].id != id
                },
                None => !has_player(self.players@, id),
            },
    {
        let mut i: usize = 0;
        while i < self.players.len()
            invariant
                i <= self.players@.len(),
                forall|j: int| 0 <= j < i ==> self.players@[j].id != id,
            decreases self.players@.len() - i,
        {
            if self.players[i].id == id {
                proof {
                    lemma_first_player_characterizes(self.players@, id, i as int);
                }
                return Some(i);
            }
            i = i + 1;
        }
        None
    }

    /// Seats a new player with an empty hand; rejects an id that is
    /// already seated.
    pub fn add_player(&mut self, id: u128) -> (r: Result<(), GameError>)
        requires
            old(self).wf(),
        ensures
            final(self).wf(),
            final(self).id == old(self).id,
            final(self).deck == old(self).deck,
            final(self).dealer == old(self).dealer,
            match r {
                Ok(()) => {
                    &&& !has_player(old(self).players@, id)
                    &&& final(self).players@.len() == old(self).players@.len() + 1
                    &&& forall|j: int|
                        0 <= j < old(self).players@.len() ==> final(self).players@[j] == old(
                            self,
                        ).players@[j]
                    &&& final(self).players@.last().id == id
                    &&& final(self).players@.last().hand@ =~= Seq::<PlayerCard>::empty()
                },
                Err(e) => {
                    &&& e == GameError::DuplicatePlayer
                    &&& has_player(old(self).players@, id)
                    &&& final(self).players == old(self).players
                },
            },
    {
        if self.get_player(id).is_some() {
            return Err(GameError::DuplicatePlayer);
        }
        let player = Player { id, hand: Vec::new() };
        self.players.push(player);
        Ok(())
    }

    /// Removes the seated player with the given id, discarding its hand;
    /// reports by a boolean whether the id was found.
    pub fn remove_player(&mut self, id: u128) -> (r: bool)
        requires
            old(self).wf(),
        ensures
            final(self).wf(),
            final(self).id == old(self).id,
            final(self).deck == old(self).deck,
            final(self).dealer == old(self).dealer,
            r == has_player(old(self).players@, id),
            r ==> final(self).players@ == old(self).players@.remove(
                first_player(old(self).players@, id),
            ),
            !r ==> final(self).players == old(self).players,
    {
        match self.get_player(id) {
            Some(i) => {
                proof {
                    self.players@.remove_ensures(i as int);
                }
                self.players.remove(i);
                true
            },
            None => false,
        }
    }

    /// Draws one card from the tail of the shoe and deals it face-up to
    /// the player with the given id. Fails with `PlayerNotFound` if the
    /// id is not seated and with `ShoeExhausted` if the shoe is empty;
    /// either failure leaves the table unchanged.
    pub fn add_card(&mut self, id: u128) -> (r: Result<(), GameError>)
        requires
            old(self).wf(),
        ensures
            final(self).wf(),
            final(self).id == old(self).id,
            final(self).dealer == old(self).dealer,
            match r {
                Ok(()) => {
                    let fi = first_player(old(self).players@, id);
                    &&& has_player(old(self).players@, id)
                    &&& old(self).deck@.len() > 0
                    &&& final(self).deck@ == old(self).deck@.drop_last()
                    &&& final(self).players@.len() == old(self).players@.len()
                    &&& forall|j: int|
                        0 <= j < old(self).players@.len() && j != fi ==> final(self).players@[j]
                            == old(self).players@[j]
                    &&& final(self).players@[fi].id == id
                    &&& final(self).players@[fi].hand@ == old(self).players@[fi].hand@.push(
                        PlayerCard { card: old(self).deck@.last(), visible: true },
                    )
                },
                Err(e) => {
                    &&& final(self).players == old(self).players
                    &&& final(self).deck == old(self).deck
                    &&& (e == GameError::PlayerNotFound || e == GameError::ShoeExhausted)
                    &&& (e == GameError::PlayerNotFound <==> !has_player(old(self).players@, id))
                    &&& (e == GameError::ShoeExhausted <==> has_player(old(self).players@, id)
                        && old(self).deck@.len() == 0)
                },
            },
    {
        let i = match self.get_player(id) {
            Some(i) => i,
            None => {
                return Err(GameError::PlayerNotFound);
            },
        };
        if self.deck.len() == 0 {
            return Err(GameError::ShoeExhausted);
        }
        let ghost before = self.players@;
        let card = self.deck.pop().unwrap();
        let mut p = self.players.remove(i);
        p.hand.push(PlayerCard { card, visible: true });
        self.players.insert(i, p);
        proof {
            assert(self.players@ =~= before.update(i as int, p));
        }
        Ok(())
    }

    /// Draws one card from the tail of the shoe and deals it face-down
    /// to the dealer (the hole card). Fails with `ShoeExhausted` on an
    /// empty shoe, leaving the table unchanged.
    pub fn add_card_dealer(&mut self) -> (r: Result<(), GameError>)
        requires
            old(self).wf(),
        ensures
            final(self).wf(),
            final(self).id == old(self).id,
            final(self).players == old(self).players,
            match r {
                Ok(()) => {
                    &&& old(self).deck@.len() > 0
                    &&& final(self).deck@ == old(self).deck@.drop_last()
                    &&& final(self).dealer@ == old(self).dealer@.push(
                        PlayerCard { card: old(self).deck@.last(), visible: false },
                    )
                },
                Err(e) => {
                    &&& e == GameError::ShoeExhausted
                    &&& old(self).deck@.len() == 0
                    &&& final(self).deck == old(self).deck
                    &&& final(self).dealer == old(self).dealer
                },
            },
    {
        if self.deck.len() == 0 {
            return Err(GameError::ShoeExhausted);
        }
        let card = self.deck.pop().unwrap();
        self.dealer.push(PlayerCard { card, visible: false });
        Ok(())
    }

    /// Flips every dealer card face-up; idempotent, used once play
    /// resolves.
    pub fn reveal_dealer_hand(&mut self)
        requires
            old(self).wf(),
        ensures
            final(self).wf(),
            final(self).id == old(self).id,
            final(self).players == old(self).players,
            final(self).deck == old(self).deck,
            final(self).dealer@.len() == old(self).dealer@.len(),
            forall|i: int|
                0 <= i < old(self).dealer@.len() ==> final(self).dealer@[i] == (PlayerCard {
                    card: old(self).dealer@[i].card,
                    visible: true,
                }),
    {
        let mut i: usize = 0;
        while i < self.dealer.len()
            invariant
                old(self).wf(),
                i <= self.dealer@.len(),
                self.id == old(self).id,
                self.players == old(self).players,
                self.deck == old(self).deck,
                self.dealer@.len() == old(self).dealer@.len(),
                forall|j: int|
                    0 <= j < i ==> self.dealer@[j] == (PlayerCard {
                        card: old(self).dealer@[j].card,
                        visible: true,
                    }),
                forall|j: int| i <= j < self.dealer@.len() ==> self.dealer@[j] == old(
                    self,
                ).dealer@[j],
            decreases self.dealer@.len() - i,
        {
            let pc = self.dealer[i];
            self.dealer[i] = PlayerCard { card: pc.card, visible: true };
            i = i + 1;
        }
    }

    /// Whether the player with the given id wins against the dealer
    /// under the table's winner rule (see `is_winner`). Fails with
    /// `PlayerNotFound` if the id is not seated.
    pub fn check_winner(&self, id: u128) -> (r: Result<bool, GameError>)
        requires
            self.wf(),
        ensures
            match r {
                Ok(b) => has_player(self.players@, id) && b == is_winner(
                    cards_of(self.players@[first_player(self.players@, id)].hand@),
                    cards_of(self.dealer@),
                ),
                Err(e) => e == GameError::PlayerNotFound && !has_player(self.players@, id),
            },
    {
        let i = match self.get_player(id) {
            Some(i) => i,
            None => {
                return Err(GameError::PlayerNotFound);
            },
        };
        proof {
            assert(self.players@[i as int].hand@.len() + self.deck@.len() <= MAX_TABLE_CARDS);
        }
        let (player_hard, player_soft) = hand_total(&self.players[i].hand);
        let (dealer_hard, dealer_soft) = hand_total(&self.dealer);
        Ok(
            (dealer_hard > player_hard || dealer_hard > player_soft) || ((dealer_soft > player_hard
                || dealer_soft > player_soft) && dealer_hard <= 21),
        )
    }

    /// Identifiers of all seated players that win against the dealer, in
    /// seating order; the set does not depend on the iteration order.
    pub fn check_winners_player(&self) -> (winners: Vec<u128>)
        requires
            self.wf(),
        ensures
            winners@ == winner_ids(self.players@, cards_of(self.dealer@)),
    {
        let ghost d = cards_of(self.dealer@);
        let mut winners: Vec<u128> = Vec::new();
        let mut i: usize = 0;
        proof {
            assert(self.players@.take(0int) =~= Seq::<Player>::empty());
            reveal_with_fuel(Seq::filter, 1);
            assert(winners@ =~= winner_ids(self.players@.take(0int), d));
        }
        while i < self.players.len()
            invariant
                self.wf(),
                i <= self.players@.len(),
                d == cards_of(self.dealer@),
                winners@ == winner_ids(self.players@.take(i as int), d),
            decreases self.players@.len() - i,
        {
            let pid = self.players[i].id;
            proof {
                lemma_first_player_characterizes(self.players@, pid, i as int);
            }
            let won = match self.check_winner(pid) {
                Ok(b) => b,
                Err(_) => false,
            };
            if won {
                winners.push(pid);
            }
            proof {
                let taken = self.players@.take(i as int);
                let taken1 = self.players@.take(i + 1int);
                assert(taken1.drop_last() =~= taken);
                assert(taken1.last() == self.players@[i as int]);
                reveal_with_fuel(Seq::filter, 2);
                let pred = |p: Player| is_winner(cards_of(p.hand@), d);
                if pred(self.players@[i as int]) {
                    assert(taken1.filter(pred) == taken.filter(pred).push(
                        self.players@[i as int],
                    ));
                    assert(taken1.filter(pred).map_values(|p: Player| p.id) =~= taken.filter(
                        pred,
                    ).map_values(|p: Player| p.id).push(pid));
                } else {
                    assert(taken1.filter(pred) == taken.filter(pred));
                }
            }
            i = i + 1;
        }
        proof {
            assert(self.players@.take(self.players@.len() as int) =~= self.players@);
        }
        winners
    }
}

} // verus!
