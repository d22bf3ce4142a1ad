//! Game registry: the collection of tables, keyed by identifier and the
//! sole owner of table lifetime.

use vstd::prelude::*;
use crate::card::Card;
use crate::deck::{build_shoe, count_of};
use crate::table::{Table, MAX_TABLE_CARDS};

verus! {

/// Number of complete decks in every freshly built shoe.
pub const NUM_OF_DECKS: usize = 3;

/// Relies on `uuid::Uuid::new_v4`: a freshly generated random
/// (version 4) identifier, taken as its 128-bit value. The result is
/// random, so nothing is promised of it.
#[verifier::external_body]
fn fresh_id() -> u128 {
    uuid::Uuid::new_v4().as_u128()
}

/// Some registered table has the given id.
pub open spec fn has_table(ts: Seq<Table>, id: u128) -> bool {
    exists|i: int| 0 <= i < ts.len() && ts[i].id == id
}

/// Index of the first registered table with the given id (the length if
/// there is none).
pub open spec fn first_table(ts: Seq<Table>, id: u128) -> int
    decreases ts.len(),
{
    if ts.len() == 0 {
        0
    } else if ts[0].id == id {
        0
    } else {
        1 + first_table(ts.drop_first(), id)
    }
}

/// `first_table` is exactly the first index whose table has the id.
pub proof fn lemma_first_table_characterizes(ts: Seq<Table>, id: u128, i: int)
    requires
        0 <= i < ts.len(),
        ts[i].id == id,
        forall|j: int| 0 <= j < i ==> ts[j].id != id,
    ensures
        first_table(ts, id) == i,
        has_table(ts, id),
    decreases ts.len(),
{
    if i > 0 {
        lemma_first_table_characterizes(ts.drop_first(), id, i - 1);
    }
}

/// The set of all blackjack tables of one service process.
pub struct Blackjack {
    pub tables: Vec<Table>,
}

impl Blackjack {
    /// Every registered table is well formed.
    pub open spec fn wf(self) -> bool {
        forall|i: int| 0 <= i < self.tables@.len() ==> (#[trigger] self.tables@[i]).wf()
    }

    /// A registry with no tables.
    pub fn create_game() -> (g: Blackjack)
        ensures
            g.wf(),
            g.tables@ =~= Seq::<Table>::empty(),
    {
        let tables: Vec<Table> = Vec::new();
        Blackjack { tables }
    }

    /// Index of the table with the given id, or `None` if absent.
    pub fn get_table(&self, id: u128) -> (r: Option<usize>)
        ensures
            match r {
                Some(i) => {
                    &&& has_table(self.tables@, id)
                    &&& i == first_table(self.tables@, id)
                    &&& i < self.tables@.len()
                    &&& self.tables@[i as int].id == id
                    &&& forall|j: int| 0 <= j < i ==> self.tables@[j].id != id
                },
                None => !has_table(self.tables@, id),
            },
    {
        let mut i: usize = 0;
        while i < self.tables.len()
            invariant
                i <= self.tables@.len(),
                forall|j: int| 0 <= j < i ==> self.tables@[j].id != id,
            decreases self.tables@.len() - i,
        {
            if self.tables[i].id == id {
                proof {
                    lemma_first_table_characterizes(self.tables@, id, i as int);
                }
                return Some(i);
            }
            i = i + 1;
        }
        None
    }

    /// Shared access to the table at a registry index.
    pub fn table(&self, i: usize) -> (t: &Table)
        requires
            i < self.tables@.len(),
        ensures
            *t == self.tables@[i as int],
    {
        &self.tables[i]
    }

    /// Removes the table with the given id, discarding its whole state;
    /// reports by a boolean whether the id was found.
    pub fn remove_table(&mut self, id: u128) -> (r: bool)
        requires
            old(self).wf(),
        ensures
            final(self).wf(),
            r == has_table(old(self).tables@, id),
            r ==> final(self).tables@ == old(self).tables@.remove(
                first_table(old(self).tables@, id),
            ),
            !r ==> final(self).tables == old(self).tables,
    {
        match self.get_table(id) {
            Some(i) => {
                proof {
                    self.tables@.remove_ensures(i as int);
                }
                self.tables.remove(i);
                true
            },
            None => false,
        }
    }

    /// Registers a new table with a fresh identifier, no players, an
    /// empty dealer hand and a freshly built multi-deck shoe; returns
    /// the new table's identifier.
    pub fn add_table(&mut self) -> (id: u128)
        requires
            old(self).wf(),
        ensures
            final(self).wf(),
            final(self).tables@.len() == old(self).tables@.len() + 1,
            forall|j: int|
                0 <= j < old(self).tables@.len() ==> final(self).tables@[j] == old(
                    self,
                ).tables@[j],
            final(self).tables@.last().id == id,
            final(self).tables@.last().players@ =~= Seq::<crate::table::Player>::empty(),
            final(self).tables@.last().dealer@
                =~= Seq::<crate::table::PlayerCard>::empty(),
            final(self).tables@.last().deck@.len() == 52 * NUM_OF_DECKS,
            forall|c: Card| count_of(final(self).tables@.last().deck@, c) == NUM_OF_DECKS,
    {
        let id = fresh_id();
        let deck = Self::create_deck();
        let table = Table::new(id, deck);
        self.tables.push(table);
        id
    }

    /// Builds and shuffles the standard shoe used by every new table:
    /// `NUM_OF_DECKS` complete decks.
    pub fn create_deck() -> (deck: Vec<Card>)
        ensures
            deck@.len() == 52 * NUM_OF_DECKS,
            deck@.len() <= MAX_TABLE_CARDS,
            forall|c: Card| count_of(deck@, c) == NUM_OF_DECKS,
    {
        build_shoe(NUM_OF_DECKS)
    }
}

} // verus!
