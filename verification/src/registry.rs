//! The connection registry: the one table shared by all server sessions,
//! mapping a connection identifier to that session's outbound handle. A
//! session inserts itself on start and removes itself on exit; addressed
//! delivery consults it and sends nothing for an absent identifier.

use vstd::prelude::*;

use tokio::sync::mpsc::UnboundedSender;

use crate::ext::queue_send;

verus! {

/// The map an entry list denotes; a later entry with the same identifier
/// wins.
pub open spec fn entries_map(s: Seq<(u128, UnboundedSender<String>)>) -> Map<
    u128,
    UnboundedSender<String>,
>
    decreases s.len(),
{
    if s.len() == 0 {
        Map::empty()
    } else {
        entries_map(s.drop_last()).insert(s.last().0, s.last().1)
    }
}

/// Whether some entry of `s` holds identifier `id`.
pub open spec fn entries_have(s: Seq<(u128, UnboundedSender<String>)>, id: u128) -> bool {
    exists|i: int| 0 <= i < s.len() && s[i].0 == id
}

/// An identifier is in the denoted map exactly when some entry holds it.
proof fn lemma_entries_dom(s: Seq<(u128, UnboundedSender<String>)>, id: u128)
    ensures
        entries_map(s).dom().contains(id) == entries_have(s, id),
    decreases s.len(),
{
    if s.len() > 0 {
        lemma_entries_dom(s.drop_last(), id);
        if s.last().0 == id {
            assert(s[s.len() - 1].0 == id);
        } else {
            if entries_have(s.drop_last(), id) {
                let i = choose|i: int| 0 <= i < s.drop_last().len() && s.drop_last()[i].0 == id;
                assert(s[i].0 == id);
            }
            if entries_have(s, id) {
                let i = choose|i: int| 0 <= i < s.len() && s[i].0 == id;
                assert(s.drop_last()[i].0 == id);
            }
        }
    }
}

/// No two entries hold the same identifier.
pub open spec fn entries_unique(s: Seq<(u128, UnboundedSender<String>)>) -> bool {
    forall|i: int, j: int| 0 <= i < j < s.len() ==> s[i].0 != s[j].0
}

/// Removing the entry at `i` removes exactly its identifier from the
/// denoted map, when identifiers are unique.
proof fn lemma_entries_map_remove(s: Seq<(u128, UnboundedSender<String>)>, i: int)
    requires
        entries_unique(s),
        0 <= i < s.len(),
    ensures
        entries_map(s.remove(i)) == entries_map(s).remove(s[i].0),
    decreases s.len(),
{
    let id = s[i].0;
    if i == s.len() - 1 {
        assert(s.remove(i) =~= s.drop_last());
        lemma_entries_dom(s.drop_last(), id);
        assert(!entries_have(s.drop_last(), id)) by {
            if entries_have(s.drop_last(), id) {
                let j = choose|j: int|
                    0 <= j < s.drop_last().len() && s.drop_last()[j].0 == id;
                assert(s[j].0 == id);
            }
        }
        assert(entries_map(s).remove(id) =~= entries_map(s.drop_last()));
    } else {
        assert(entries_unique(s.drop_last()));
        lemma_entries_map_remove(s.drop_last(), i);
        assert(s.remove(i).drop_last() =~= s.drop_last().remove(i));
        assert(s.remove(i).last() == s.last());
        assert(entries_map(s.remove(i)) == entries_map(s.drop_last().remove(i)).insert(
            s.last().0,
            s.last().1,
        ));
        assert(s.last().0 != id);
        assert(entries_map(s.drop_last()).remove(id).insert(s.last().0, s.last().1)
            =~= entries_map(s).remove(id));
    }
}

/// The server's table of live connections.
pub struct ConnectionRegistry {
    entries: Vec<(u128, UnboundedSender<String>)>,
}

impl View for ConnectionRegistry {
    type V = Map<u128, UnboundedSender<String>>;

    closed spec fn view(&self) -> Map<u128, UnboundedSender<String>> {
        entries_map(self.entries@)
    }
}

impl ConnectionRegistry {
    /// One identifier names at most one connection.
    pub closed spec fn wf(&self) -> bool {
        entries_unique(self.entries@)
    }

    /// An empty registry.
    pub fn new() -> (r: ConnectionRegistry)
        ensures
            r@ == Map::<u128, UnboundedSender<String>>::empty(),
            r.wf(),
    {
        ConnectionRegistry { entries: Vec::new() }
    }

    /// The position of the entry holding `id`, if any.
    fn index_of(&self, id: u128) -> (r: Option<usize>)
        ensures
            match r {
                Some(i) => i < self.entries@.len() && self.entries@[i as int].0 == id,
                None => !entries_have(self.entries@, id),
            },
    {
        let mut i: usize = 0;
        while i < self.entries.len()
            invariant
                i <= self.entries@.len(),
                forall|j: int| 0 <= j < i ==> self.entries@[j].0 != id,
            decreases self.entries@.len() - i,
        {
            if self.entries[i].0 == id {
                return Some(i);
            }
            i += 1;
        }
        None
    }

    /// Whether `id` names a live connection.
    pub fn contains(&self, id: u128) -> (r: bool)
        ensures
            r == self@.dom().contains(id),
    {
        proof {
            lemma_entries_dom(self.entries@, id);
        }
        match self.index_of(id) {
            Some(_) => true,
            None => false,
        }
    }

    /// Appends a binding for an identifier not yet present.
    fn push_fresh(&mut self, id: u128, tx: UnboundedSender<String>)
        requires
            old(self).wf(),
            !old(self)@.dom().contains(id),
        ensures
            final(self).wf(),
            final(self)@ == old(self)@.insert(id, tx),
    {
        proof {
            lemma_entries_dom(old(self).entries@, id);
        }
        self.entries.push((id, tx));
        proof {
            assert(self.entries@.drop_last() =~= old(self).entries@);
            assert(self.entries@.last() == (id, tx));
            assert(entries_map(self.entries@) == entries_map(old(self).entries@).insert(id, tx));
            assert(entries_unique(self.entries@)) by {
                assert(forall|a: int|
                    0 <= a < old(self).entries@.len() ==> self.entries@[a] == old(
                        self,
                    ).entries@[a]);
                assert(forall|a: int|
                    0 <= a < old(self).entries@.len() ==> old(self).entries@[a].0 != id);
            }
        }
    }

    /// Binds `id` to the outbound handle `tx`; an existing binding of the
    /// same identifier is replaced.
    pub fn insert(&mut self, id: u128, tx: UnboundedSender<String>)
        requires
            old(self).wf(),
        ensures
            final(self).wf(),
            final(self)@ == old(self)@.insert(id, tx),
    {
        self.remove(id);
        self.push_fresh(id, tx);
        proof {
            assert(old(self)@.remove(id).insert(id, tx) =~= old(self)@.insert(id, tx));
        }
    }

    /// Unbinds `id`; absent identifiers are left as they are.
    pub fn remove(&mut self, id: u128)
        requires
            old(self).wf(),
        ensures
            final(self).wf(),
            final(self)@ == old(self)@.remove(id),
    {
        match self.index_of(id) {
            Some(i) => {
                self.entries.remove(i);
                proof {
                    lemma_entries_map_remove(old(self).entries@, i as int);
                    assert(entries_unique(self.entries@)) by {
                        assert(forall|a: int|
                            0 <= a < self.entries@.len() ==> self.entries@[a]
                                == if a < i {
                                    old(self).entries@[a]
                                } else {
                                    old(self).entries@[a + 1]
                                });
                    }
                }
            },
            None => {
                proof {
                    lemma_entries_dom(self.entries@, id);
                    assert(old(self)@.remove(id) =~= old(self)@);
                }
            },
        }
    }

    /// Hands `msg` to the connection `to` names: queued on that session's
    /// outbound handle when the identifier is live, and a silent no-op
    /// when it is not. Returns whether the identifier was live.
    pub fn deliver(&self, to: u128, msg: String) -> (found: bool)
        ensures
            found == self@.dom().contains(to),
    {
        proof {
            lemma_entries_dom(self.entries@, to);
        }
        match self.index_of(to) {
            Some(i) => {
                let _ = queue_send(&self.entries[i].1, msg);
                true
            },
            None => false,
        }
    }
}

} // verus!
