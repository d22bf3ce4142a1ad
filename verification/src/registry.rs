//! Connection registry: the single owner of the map from connection key
//! (display name, unique identifier) to outbound sender. All mutation and
//! broadcast is expressed as commands applied one at a time; the handler
//! computes the deliveries to perform, so delivery itself (the only
//! side effect) stays outside the library.

use vstd::prelude::*;

verus! {

broadcast use vstd::map::group_map_axioms;

/// Tags of the outbound message envelope.
#[derive(Clone, Copy, Debug, PartialEq, Eq, Structural)]
pub enum MsgType {
    UserAdded,
    Data,
    SelfUuid,
    UpdateUserList,
}

/// Outbound message envelope: a tag and its type-specific payload
/// fields.
pub struct SendWS {
    pub msg_type: MsgType,
    pub msg_data_str: Option<String>,
    pub msg_data_keys: Option<Vec<(String, u128)>>,
    pub msg_data_arr: Option<String>,
}

/// One message to transmit to the connection registered under a key.
pub struct Delivery {
    pub key: (String, u128),
    pub msg: SendWS,
}

/// A registered connection: its key and the exclusively owned sender.
pub struct Entry<S> {
    pub key: (String, u128),
    pub sender: S,
}

/// Mathematical value of a connection key.
pub open spec fn kv(k: (String, u128)) -> (Seq<char>, u128) {
    (k.0@, k.1)
}

/// Mathematical value of a sequence of connection keys.
pub open spec fn keys_view(s: Seq<(String, u128)>) -> Seq<(Seq<char>, u128)> {
    s.map_values(|k: (String, u128)| kv(k))
}

/// Key of a registry entry.
pub open spec fn entry_key<S>(e: Entry<S>) -> (Seq<char>, u128) {
    kv(e.key)
}

/// The keys of the entries, in registration order.
pub open spec fn roster_of<S>(s: Seq<Entry<S>>) -> Seq<(Seq<char>, u128)> {
    s.map_values(|e: Entry<S>| entry_key(e))
}

/// Some entry carries the key.
pub open spec fn has_key<S>(s: Seq<Entry<S>>, k: (Seq<char>, u128)) -> bool {
    exists|i: int| 0 <= i < s.len() && entry_key(s[i]) == k
}

/// No two entries share a key.
pub open spec fn unique_keys<S>(s: Seq<Entry<S>>) -> bool {
    forall|i: int, j: int| 0 <= i < j < s.len() ==> entry_key(s[i]) != entry_key(s[j])
}

/// The map from key to sender that a sequence of entries represents;
/// later entries supersede earlier ones.
pub open spec fn entries_map<S>(s: Seq<Entry<S>>) -> Map<(Seq<char>, u128), S>
    decreases s.len(),
{
    if s.len() == 0 {
        Map::empty()
    } else {
        entries_map(s.drop_last()).insert(entry_key(s.last()), s.last().sender)
    }
}

/// A key is in the represented map exactly when some entry carries it.
pub proof fn lemma_entries_map_dom<S>(s: Seq<Entry<S>>)
    ensures
        forall|k: (Seq<char>, u128)| #[trigger]
            entries_map(s).dom().contains(k) <==> has_key(s, k),
    decreases s.len(),
{
    if s.len() > 0 {
        let d = s.drop_last();
        lemma_entries_map_dom(d);
        assert forall|k: (Seq<char>, u128)| #[trigger]
            entries_map(s).dom().contains(k) <==> has_key(s, k) by {
            assert(entries_map(s) == entries_map(d).insert(entry_key(s.last()), s.last().sender));
            if entries_map(s).dom().contains(k) {
                if k == entry_key(s.last()) {
                    assert(entry_key(s[s.len() - 1]) == k);
                    assert(has_key(s, k));
                } else {
                    assert(entries_map(d).dom().contains(k));
                    assert(has_key(d, k));
                    let i = choose|i: int| 0 <= i < d.len() && entry_key(d[i]) == k;
                    assert(d[i] == s[i]);
                    assert(entry_key(s[i]) == k);
                    assert(has_key(s, k));
                }
            }
            if has_key(s, k) {
                let i = choose|i: int| 0 <= i < s.len() && entry_key(s[i]) == k;
                if i < s.len() - 1 {
                    assert(d[i] == s[i]);
                    assert(entry_key(d[i]) == k);
                    assert(has_key(d, k));
                    assert(entries_map(d).dom().contains(k));
                    assert(entries_map(s).dom().contains(k));
                } else {
                    assert(k == entry_key(s.last()));
                    assert(entries_map(s).dom().contains(k));
                }
            }
        }
    }
}

/// In a registry with unique keys, the represented map sends each
/// entry's key to that entry's sender.
pub proof fn lemma_entries_map_at<S>(s: Seq<Entry<S>>, i: int)
    requires
        unique_keys(s),
        0 <= i < s.len(),
    ensures
        entries_map(s).dom().contains(entry_key(s[i])),
        entries_map(s)[entry_key(s[i])] == s[i].sender,
    decreases s.len(),
{
    let d = s.drop_last();
    if i < s.len() - 1 {
        assert(d[i] == s[i]);
        lemma_entries_map_at(d, i);
        assert(entry_key(s[i]) != entry_key(s[s.len() - 1]));
    }
}

/// Replacing the sender under an existing key updates the represented
/// map pointwise.
pub proof fn lemma_entries_map_update<S>(s: Seq<Entry<S>>, i: int, e: Entry<S>)
    requires
        unique_keys(s),
        0 <= i < s.len(),
        entry_key(e) == entry_key(s[i]),
    ensures
        entries_map(s.update(i, e)) == entries_map(s).insert(entry_key(e), e.sender),
    decreases s.len(),
{
    let d = s.drop_last();
    let u = s.update(i, e);
    if i == s.len() - 1 {
        assert(u.drop_last() =~= d);
        assert(u.last() == e);
        assert(entries_map(u) == entries_map(d).insert(entry_key(e), e.sender));
        assert(entries_map(d).insert(entry_key(s.last()), s.last().sender).insert(
            entry_key(e),
            e.sender,
        ) =~= entries_map(d).insert(entry_key(e), e.sender));
    } else {
        assert(u.drop_last() =~= d.update(i, e));
        assert(u.last() == s.last());
        lemma_entries_map_update(d, i, e);
        assert(entry_key(e) != entry_key(s.last()));
        assert(entries_map(u) == entries_map(d).insert(entry_key(e), e.sender).insert(
            entry_key(s.last()),
            s.last().sender,
        ));
        assert(entries_map(d).insert(entry_key(e), e.sender).insert(
            entry_key(s.last()),
            s.last().sender,
        ) =~= entries_map(d).insert(entry_key(s.last()), s.last().sender).insert(
            entry_key(e),
            e.sender,
        ));
    }
}

/// Appending an entry with a fresh key inserts it into the represented
/// map.
pub proof fn lemma_entries_map_push<S>(s: Seq<Entry<S>>, e: Entry<S>)
    ensures
        entries_map(s.push(e)) == entries_map(s).insert(entry_key(e), e.sender),
{
    assert(s.push(e).drop_last() =~= s);
    assert(s.push(e).last() == e);
}

/// Removing the entry that carries a key removes the key from the
/// represented map.
pub proof fn lemma_entries_map_remove<S>(s: Seq<Entry<S>>, i: int)
    requires
        unique_keys(s),
        0 <= i < s.len(),
    ensures
        entries_map(s.remove(i)) == entries_map(s).remove(entry_key(s[i])),
    decreases s.len(),
{
    let d = s.drop_last();
    let k = entry_key(s[i]);
    if i == s.len() - 1 {
        assert(s.remove(i) =~= d);
        lemma_entries_map_dom(d);
        assert forall|j: int| 0 <= j < d.len() implies entry_key(d[j]) != k by {
            assert(d[j] == s[j]);
        }
        assert(!has_key(d, k));
        assert(!entries_map(d).dom().contains(k));
        assert(entries_map(d).insert(k, s.last().sender).remove(k) =~= entries_map(d));
    } else {
        assert(s.remove(i).drop_last() =~= d.remove(i));
        assert(s.remove(i).last() == s.last());
        assert(d[i] == s[i]);
        lemma_entries_map_remove(d, i);
        assert(entries_map(s.remove(i)) == entries_map(d).remove(k).insert(
            entry_key(s.last()),
            s.last().sender,
        ));
        assert(k != entry_key(s.last()));
        assert(entries_map(d).remove(k).insert(entry_key(s.last()), s.last().sender)
            =~= entries_map(d).insert(entry_key(s.last()), s.last().sender).remove(k));
    }
}

/// A second registration under an already-present key leaves exactly one
/// entry for that key, holding the newer sender, and the presence of the
/// key is what the conflict status reports.
pub proof fn lemma_readd_supersedes<S>(
    m: Map<(Seq<char>, u128), S>,
    k: (Seq<char>, u128),
    s1: S,
    s2: S,
)
    ensures
        m.insert(k, s1).dom().contains(k),
        m.insert(k, s1).insert(k, s2) == m.insert(k, s2),
        m.insert(k, s1).insert(k, s2)[k] == s2,
{
    assert(m.insert(k, s1).insert(k, s2) =~= m.insert(k, s2));
}

/// After a key is removed, a send addressed to it finds no registered
/// sender, so the send is a no-op: no error and no delivery.
pub proof fn lemma_remove_then_send_noop<S>(m: Map<(Seq<char>, u128), S>, k: (Seq<char>, u128))
    ensures
        !m.remove(k).dom().contains(k),
{
}

/// A roster broadcast: one delivery per registered key, each carrying
/// the same full snapshot of the roster.
pub open spec fn roster_deliveries(ds: Seq<Delivery>, roster: Seq<(Seq<char>, u128)>) -> bool {
    &&& ds.len() == roster.len()
    &&& forall|j: int|
        0 <= j < ds.len() ==> kv(#[trigger] ds[j].key) == roster[j] && is_roster_msg(
            ds[j].msg,
            roster,
        )
}

/// A roster-update message carrying exactly the given snapshot of keys.
pub open spec fn is_roster_msg(m: SendWS, roster: Seq<(Seq<char>, u128)>) -> bool {
    &&& m.msg_type == MsgType::UpdateUserList
    &&& m.msg_data_str is None
    &&& m.msg_data_arr is None
    &&& m.msg_data_keys matches Some(v) && keys_view(v@) == roster
}

/// The serialized command stream applied to the registry, one command at
/// a time.
pub enum Command<S> {
    AddWS { key: (String, u128), ws_send: S },
    DeleteWS { key: (String, u128) },
    SendWS { key: (String, u128), msg: SendWS },
    UpdateUserList {},
}

/// What one command produced: the reply data for the caller and the
/// deliveries the surrounding loop must transmit.
pub enum CommandOutcome<S> {
    Added { status: u16, assigned: u128, deliveries: Vec<Delivery> },
    Removed { sender: Option<S>, deliveries: Vec<Delivery> },
    Sent { deliveries: Vec<Delivery> },
    Roster { deliveries: Vec<Delivery> },
}

/// The connection registry itself: entries in registration order, at
/// most one per key.
pub struct WebSocketManager<S> {
    pub entries: Vec<Entry<S>>,
}

impl<S> View for WebSocketManager<S> {
    type V = Map<(Seq<char>, u128), S>;

    open spec fn view(&self) -> Self::V {
        entries_map(self.entries@)
    }
}

impl<S> WebSocketManager<S> {
    /// At most one live sender per key at any time.
    pub open spec fn wf(self) -> bool {
        unique_keys(self.entries@)
    }

    /// An empty registry.
    pub fn new() -> (m: Self)
        ensures
            m.wf(),
            m@ == Map::<(Seq<char>, u128), S>::empty(),
            m.entries@ =~= Seq::<Entry<S>>::empty(),
    {
        WebSocketManager { entries: Vec::new() }
    }

    /// Index of the entry carrying the key, or `None` if absent.
    fn find(&self, key: &(String, u128)) -> (r: Option<usize>)
        ensures
            match r {
                Some(i) => {
                    &&& i < self.entries@.len()
                    &&& entry_key(self.entries@[i as int]) == kv(*key)
                    &&& has_key(self.entries@, kv(*key))
                },
                None => !has_key(self.entries@, kv(*key)),
            },
    {
        let mut i: usize = 0;
        while i < self.entries.len()
            invariant
                i <= self.entries@.len(),
                forall|j: int| 0 <= j < i ==> entry_key(self.entries@[j]) != kv(*key),
            decreases self.entries@.len() - i,
        {
            if self.entries[i].key.1 == key.1 && self.entries[i].key.0 == key.0 {
                return Some(i);
            }
            i = i + 1;
        }
        None
    }

    /// Registers a sender under a key. A fresh key is reported with
    /// status 200; an existing key is reported as a conflict with
    /// status 409, and the old sender is superseded either way
    /// (last write wins).
    pub fn add_ws(&mut self, key: (String, u128), sender: S) -> (r: (u16, String))
        requires
            old(self).wf(),
        ensures
            final(self).wf(),
            final(self)@ == old(self)@.insert(kv(key), sender),
            r.0 == 200 || r.0 == 409,
            r.0 == 200 <==> !old(self)@.dom().contains(kv(key)),
            r.0 == 200 ==> r.1@ == "ws was added"@,
            r.0 == 409 ==> r.1@ == "ws was not added due to conflicting keys"@,
    {
        proof {
            lemma_entries_map_dom(self.entries@);
        }
        match self.find(&key) {
            Some(i) => {
                let ghost before = self.entries@;
                let ghost k = kv(key);
                let e = Entry { key, sender };
                proof {
                    lemma_entries_map_update(before, i as int, e);
                }
                self.entries[i] = e;
                proof {
                    assert forall|a: int, b: int|
                        0 <= a < b < self.entries@.len() implies entry_key(self.entries@[a])
                        != entry_key(self.entries@[b]) by {
                        assert(entry_key(self.entries@[a]) == entry_key(before[a]));
                        assert(entry_key(self.entries@[b]) == entry_key(before[b]));
                    }
                }
                (409, ws_conflict_note())
            },
            None => {
                let ghost before = self.entries@;
                let ghost k = kv(key);
                let e = Entry { key, sender };
                proof {
                    lemma_entries_map_push(before, e);
                }
                self.entries.push(e);
                proof {
                    assert forall|a: int, b: int|
                        0 <= a < b < self.entries@.len() implies entry_key(self.entries@[a])
                        != entry_key(self.entries@[b]) by {
                        if b < before.len() {
                            assert(self.entries@[a] == before[a]);
                            assert(self.entries@[b] == before[b]);
                        } else {
                            assert(self.entries@[a] == before[a]);
                            assert(entry_key(before[a]) != k);
                        }
                    }
                }
                (200, ws_added_note())
            },
        }
    }

    /// Removes a key and hands back its sender for a final flush, or
    /// reports absence. The represented map loses exactly that key.
    pub fn remove_ws(&mut self, key: (String, u128)) -> (r: Option<S>)
        requires
            old(self).wf(),
        ensures
            final(self).wf(),
            final(self)@ == old(self)@.remove(kv(key)),
            r is Some <==> old(self)@.dom().contains(kv(key)),
            r matches Some(s) ==> old(self)@[kv(key)] == s,
    {
        proof {
            lemma_entries_map_dom(self.entries@);
        }
        match self.find(&key) {
            Some(i) => {
                let ghost before = self.entries@;
                proof {
                    lemma_entries_map_remove(before, i as int);
                    lemma_entries_map_at(before, i as int);
                    before.remove_ensures(i as int);
                }
                let e = self.entries.remove(i);
                proof {
                    assert forall|a: int, b: int|
                        0 <= a < b < self.entries@.len() implies entry_key(self.entries@[a])
                        != entry_key(self.entries@[b]) by {
                        if a < i as int {
                            assert(self.entries@[a] == before[a]);
                        } else {
                            assert(self.entries@[a] == before[a + 1]);
                        }
                        if b < i as int {
                            assert(self.entries@[b] == before[b]);
                        } else {
                            assert(self.entries@[b] == before[b + 1]);
                        }
                    }
                }
                Some(e.sender)
            },
            None => {
                proof {
                    assert(old(self)@.remove(kv(key)) =~= old(self)@);
                }
                None
            },
        }
    }

    /// Shared access to the sender registered under (name, id), or
    /// `None` if the key is absent.
    pub fn get_ws(&self, id: u128, name: String) -> (r: Option<&S>)
        requires
            self.wf(),
        ensures
            match r {
                Some(s) => self@.dom().contains((name@, id)) && *s == self@[(name@, id)],
                None => !self@.dom().contains((name@, id)),
            },
    {
        proof {
            lemma_entries_map_dom(self.entries@);
        }
        let key = (name, id);
        match self.find(&key) {
            Some(i) => {
                proof {
                    lemma_entries_map_at(self.entries@, i as int);
                }
                Some(&self.entries[i].sender)
            },
            None => None,
        }
    }

    /// Exclusive access to the sender registered under (name, id), for
    /// performing one delivery; `None` if the key is absent. Writing
    /// through the reference replaces only that sender: the key set and
    /// the roster order are unchanged.
    pub fn get_ws_mut(&mut self, id: u128, name: String) -> (r: Option<&mut S>)
        requires
            old(self).wf(),
        ensures
            match r {
                Some(s) => {
                    &&& old(self)@.dom().contains((name@, id))
                    &&& *s == old(self)@[(name@, id)]
                    &&& final(self)@ == old(self)@.insert((name@, id), *final(s))
                    &&& final(self).wf()
                    &&& roster_of(final(self).entries@) == roster_of(old(self).entries@)
                },
                None => {
                    &&& !old(self)@.dom().contains((name@, id))
                    &&& *final(self) == *old(self)
                },
            },
    {
        proof {
            lemma_entries_map_dom(self.entries@);
        }
        let key = (name, id);
        match self.find(&key) {
            Some(i) => {
                proof {
                    let es = self.entries@;
                    lemma_entries_map_at(es, i as int);
                    assert forall|x: S|
                        entries_map(
                            #[trigger] es.update(
                                i as int,
                                (Entry { key: es[i as int].key, sender: x }),
                            ),
                        ) == entries_map(es).insert(entry_key(es[i as int]), x) by {
                        lemma_entries_map_update(
                            es,
                            i as int,
                            Entry { key: es[i as int].key, sender: x },
                        );
                    }
                    assert forall|x: S|
                        unique_keys(
                            #[trigger] es.update(
                                i as int,
                                (Entry { key: es[i as int].key, sender: x }),
                            ),
                        ) by {
                        let u = es.update(i as int, (Entry { key: es[i as int].key, sender: x }));
                        assert forall|a: int, b: int|
                            0 <= a < b < u.len() implies entry_key(u[a]) != entry_key(u[b]) by {
                            assert(entry_key(u[a]) == entry_key(es[a]));
                            assert(entry_key(u[b]) == entry_key(es[b]));
                        }
                    }
                    assert forall|x: S|
                        roster_of(
                            #[trigger] es.update(
                                i as int,
                                (Entry { key: es[i as int].key, sender: x }),
                            ),
                        ) == roster_of(es) by {
                        assert(roster_of(
                            es.update(i as int, (Entry { key: es[i as int].key, sender: x })),
                        ) =~= roster_of(es));
                    }
                }
                Some(&mut self.entries[i].sender)
            },
            None => None,
        }
    }

    /// The keys of every registered connection, in registration order.
    pub fn get_all_uuids(&self) -> (r: Vec<(String, u128)>)
        ensures
            keys_view(r@) == roster_of(self.entries@),
    {
        let mut keys: Vec<(String, u128)> = Vec::new();
        let mut i: usize = 0;
        proof {
            assert(keys_view(keys@) =~= roster_of(self.entries@.take(0int)));
        }
        while i < self.entries.len()
            invariant
                i <= self.entries@.len(),
                keys@.len() == i,
                keys_view(keys@) == roster_of(self.entries@.take(i as int)),
            decreases self.entries@.len() - i,
        {
            let name = self.entries[i].key.0.clone();
            let id = self.entries[i].key.1;
            let ghost pre = keys@;
            keys.push((name, id));
            proof {
                let t1 = self.entries@.take(i as int + 1);
                assert forall|j: int| 0 <= j < i + 1 implies keys_view(keys@)[j] == roster_of(
                    t1,
                )[j] by {
                    assert(t1[j] == self.entries@[j]);
                    if j < i {
                        assert(keys@[j] == pre[j]);
                        assert(keys_view(pre)[j] == roster_of(self.entries@.take(i as int))[j]);
                        assert(self.entries@.take(i as int)[j] == self.entries@[j]);
                    } else {
                        assert(keys@[j] == (name, id));
                        assert(name == self.entries@[i as int].key.0);
                    }
                }
                assert(keys_view(keys@) =~= roster_of(t1));
            }
            i = i + 1;
        }
        proof {
            assert(self.entries@.take(self.entries@.len() as int) =~= self.entries@);
        }
        keys
    }

    /// Computes the deliveries of one roster broadcast: every currently
    /// registered connection is to receive the same snapshot of all
    /// registered keys.
    pub fn update_all_list(&self) -> (ds: Vec<Delivery>)
        ensures
            roster_deliveries(ds@, roster_of(self.entries@)),
    {
        let ghost roster = roster_of(self.entries@);
        let mut ds: Vec<Delivery> = Vec::new();
        let mut i: usize = 0;
        while i < self.entries.len()
            invariant
                i <= self.entries@.len(),
                roster == roster_of(self.entries@),
                ds@.len() == i,
                forall|j: int| 0 <= j < i ==> kv(#[trigger] ds@[j].key) == roster[j],
                forall|j: int| 0 <= j < i ==> is_roster_msg((#[trigger] ds@[j]).msg, roster),
            decreases self.entries@.len() - i,
        {
            let keys = self.get_all_uuids();
            let msg = SendWS {
                msg_type: MsgType::UpdateUserList,
                msg_data_str: None,
                msg_data_keys: Some(keys),
                msg_data_arr: None,
            };
            let name = self.entries[i].key.0.clone();
            let id = self.entries[i].key.1;
            let ghost pre = ds@;
            let ghost m = msg;
            ds.push(Delivery { key: (name, id), msg });
            proof {
                assert forall|j: int| 0 <= j < i + 1 implies kv(#[trigger] ds@[j].key)
                    == roster[j] by {
                    if j < i {
                        assert(ds@[j] == pre[j]);
                        assert(kv(pre[j].key) == roster[j]);
                    } else {
                        assert(ds@[j] == Delivery { key: (name, id), msg: m });
                        assert(name == self.entries@[i as int].key.0);
                        assert(roster[j] == entry_key(self.entries@[j]));
                    }
                }
                assert forall|j: int| 0 <= j < i + 1 implies is_roster_msg(
                    (#[trigger] ds@[j]).msg,
                    roster,
                ) by {
                    if j < i {
                        assert(ds@[j] == pre[j]);
                        assert(is_roster_msg(pre[j].msg, roster));
                    } else {
                        assert(ds@[j] == Delivery { key: (name, id), msg: m });
                        assert(is_roster_msg(m, roster));
                    }
                }
            }
            i = i + 1;
        }
        proof {
            assert forall|j: int| 0 <= j < ds@.len() implies kv(#[trigger] ds@[j].key)
                == roster[j] && is_roster_msg(ds@[j].msg, roster) by {
                assert(kv(ds@[j].key) == roster[j]);
                assert(is_roster_msg(ds@[j].msg, roster));
            }
        }
        ds
    }

    /// Looks up the sender for a key and, when it is registered, yields
    /// the single delivery to perform; an absent key is a no-op and the
    /// message is dropped.
    pub fn send_msg(&self, key: (String, u128), msg: SendWS) -> (r: Option<Delivery>)
        requires
            self.wf(),
        ensures
            r is Some <==> self@.dom().contains(kv(key)),
            r matches Some(d) ==> d.key == key && d.msg == msg,
    {
        proof {
            lemma_entries_map_dom(self.entries@);
        }
        match self.find(&key) {
            Some(_) => Some(Delivery { key, msg }),
            None => None,
        }
    }

    /// Applies one command of the serialized stream and reports its
    /// outcome: the registry is the only place the key-to-sender map
    /// changes, and every mutation is followed by a roster broadcast.
    pub fn handle_command(&mut self, cmd: Command<S>) -> (out: CommandOutcome<S>)
        requires
            old(self).wf(),
        ensures
            final(self).wf(),
            match cmd {
                Command::AddWS { key, ws_send } => {
                    &&& final(self)@ == old(self)@.insert(kv(key), ws_send)
                    &&& out matches CommandOutcome::Added { status, assigned, deliveries } && {
                        &&& assigned == key.1
                        &&& (status == 200 <==> !old(self)@.dom().contains(kv(key)))
                        &&& (status == 409 <==> old(self)@.dom().contains(kv(key)))
                        &&& roster_deliveries(deliveries@, roster_of(final(self).entries@))
                    }
                },
                Command::DeleteWS { key } => {
                    &&& final(self)@ == old(self)@.remove(kv(key))
                    &&& out matches CommandOutcome::Removed { sender, deliveries } && {
                        &&& (sender is Some <==> old(self)@.dom().contains(kv(key)))
                        &&& (sender matches Some(s) ==> old(self)@[kv(key)] == s)
                        &&& roster_deliveries(deliveries@, roster_of(final(self).entries@))
                    }
                },
                Command::SendWS { key, msg } => {
                    &&& *final(self) == *old(self)
                    &&& out matches CommandOutcome::Sent { deliveries } && {
                        &&& old(self)@.dom().contains(kv(key)) ==> deliveries@.len() == 1
                            && deliveries@[0].key == key && deliveries@[0].msg == msg
                        &&& !old(self)@.dom().contains(kv(key)) ==> deliveries@.len() == 0
                    }
                },
                Command::UpdateUserList {  } => {
                    &&& *final(self) == *old(self)
                    &&& out matches CommandOutcome::Roster { deliveries }
                        && roster_deliveries(deliveries@, roster_of(final(self).entries@))
                },
            },
    {
        match cmd {
            Command::AddWS { key, ws_send } => {
                let assigned = key.1;
                let (status, _note) = self.add_ws(key, ws_send);
                let deliveries = self.update_all_list();
                CommandOutcome::Added { status, assigned, deliveries }
            },
            Command::DeleteWS { key } => {
                let sender = self.remove_ws(key);
                let deliveries = self.update_all_list();
                CommandOutcome::Removed { sender, deliveries }
            },
            Command::SendWS { key, msg } => {
                let mut deliveries: Vec<Delivery> = Vec::new();
                match self.send_msg(key, msg) {
                    Some(d) => {
                        deliveries.push(d);
                    },
                    None => {},
                }
                CommandOutcome::Sent { deliveries }
            },
            Command::UpdateUserList {} => {
                let deliveries = self.update_all_list();
                CommandOutcome::Roster { deliveries }
            },
        }
    }
}

/// Frame-level events a transport delivers on one connection's inbound
/// stream.
pub enum InboundEvent {
    Text,
    Binary,
    Ping,
    Pong,
    Close,
}

/// What a connection's inbound unit must do after one frame.
#[derive(Clone, Copy, Debug, PartialEq, Eq, Structural)]
pub enum InboundDecision {
    /// Keep reading frames.
    Continue,
    /// Enqueue removal of this connection, then stop: the registry must
    /// never retain a sender for a closed transport.
    RemoveAndStop,
}

/// The inbound unit's step: a close frame obliges the unit to enqueue
/// the removal of its connection before terminating; every other frame
/// is merely observed and the unit keeps reading.
pub fn connection_step(ev: &InboundEvent) -> (d: InboundDecision)
    ensures
        d == InboundDecision::RemoveAndStop <==> ev is Close,
{
    match ev {
        InboundEvent::Close => InboundDecision::RemoveAndStop,
        _ => InboundDecision::Continue,
    }
}

/// Status note for a registration under a fresh key.
fn ws_added_note() -> (s: String)
    ensures
        s@ == "ws was added"@,
{
    "ws was added".to_owned()
}

/// Status note for a registration that superseded an existing key.
fn ws_conflict_note() -> (s: String)
    ensures
        s@ == "ws was not added due to conflicting keys"@,
{
    "ws was not added due to conflicting keys".to_owned()
}

} // verus!
