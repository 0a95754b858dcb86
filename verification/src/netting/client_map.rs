//! A table with one row per client.

use vstd::prelude::*;

use super::client_id::ClientId;

verus! {

/// Whether a client has a row at an index.
pub open spec fn row_at<V>(rows: Seq<(ClientId, V)>, client: ClientId, i: int) -> bool {
    0 <= i < rows.len() && rows[i].0 == client
}

/// The rows as a map.
pub open spec fn rows_as_map<V>(rows: Seq<(ClientId, V)>) -> Map<ClientId, V> {
    Map::new(
        |c: ClientId| exists|i: int| row_at(rows, c, i),
        |c: ClientId| rows[choose|i: int| row_at(rows, c, i)].1,
    )
}

/// A value per client, in the order in which the clients came.
pub struct ClientMap<V> {
    pub rows: Vec<(ClientId, V)>,
}

impl<V> View for ClientMap<V> {
    type V = Map<ClientId, V>;

    open spec fn view(&self) -> Map<ClientId, V> {
        rows_as_map(self.rows@)
    }
}

impl<V> ClientMap<V> {
    /// Every client has one row at most.
    pub open spec fn wf(self) -> bool {
        forall|i: int, j: int|
            0 <= i < j < self.rows@.len() ==> (#[trigger] self.rows@[i]).0 != (
            #[trigger] self.rows@[j]).0
    }

    /// A table without rows.
    pub fn new() -> (m: Self)
        ensures
            m.wf(),
            m@ == Map::<ClientId, V>::empty(),
    {
        let m = ClientMap { rows: Vec::new() };
        assert(m@ =~= Map::<ClientId, V>::empty());
        m
    }

    /// What a row holds is its client's value.
    pub proof fn row_is_value(self, i: int)
        requires
            self.wf(),
            0 <= i < self.rows@.len(),
        ensures
            self@.dom().contains(self.rows@[i].0),
            self@[self.rows@[i].0] == self.rows@[i].1,
    {
        let client = self.rows@[i].0;
        assert(row_at(self.rows@, client, i));
        let k = choose|k: int| row_at(self.rows@, client, k);
        assert(row_at(self.rows@, client, k));
        assert(k == i);
    }

    /// A client with a value has a row.
    pub proof fn value_has_row(self, client: ClientId) -> (i: int)
        requires
            self.wf(),
            self@.dom().contains(client),
        ensures
            0 <= i < self.rows@.len(),
            self.rows@[i].0 == client,
            self@[client] == self.rows@[i].1,
    {
        let i = choose|i: int| row_at(self.rows@, client, i);
        self.row_is_value(i);
        i
    }

    /// Where a client's row is.
    pub fn find(&self, client: ClientId) -> (i: Option<usize>)
        requires
            self.wf(),
        ensures
            i is Some <==> self@.dom().contains(client),
            i matches Some(k) ==> k < self.rows@.len() && self.rows@[k as int].0 == client
                && self@[client] == self.rows@[k as int].1,
    {
        let mut i: usize = 0;
        while i < self.rows.len()
            invariant
                self.wf(),
                i <= self.rows@.len(),
                forall|j: int| 0 <= j < i ==> (#[trigger] self.rows@[j]).0 != client,
            decreases self.rows@.len() - i,
        {
            if self.rows[i].0 == client {
                proof {
                    self.row_is_value(i as int);
                }
                return Some(i);
            }
            i += 1;
        }
        proof {
            if self@.dom().contains(client) {
                let k = self.value_has_row(client);
                assert(self.rows@[k].0 == client);
            }
        }
        None
    }

    /// Sets a client's value.
    pub fn insert(&mut self, client: ClientId, value: V)
        requires
            old(self).wf(),
        ensures
            final(self).wf(),
            final(self)@ == old(self)@.insert(client, value),
    {
        let ghost before = *self;
        let ghost mut at = self.rows@.len() as int;
        match self.find(client) {
            Some(i) => {
                self.rows[i] = (client, value);
                proof {
                    at = i as int;
                }
            },
            None => {
                proof {
                    assert forall|j: int| 0 <= j < before.rows@.len() implies (
                    #[trigger] before.rows@[j]).0 != client by {
                        before.row_is_value(j);
                    }
                }
                self.rows.push((client, value));
            },
        }
        proof {
            let (a, b) = (before.rows@, self.rows@);
            let expected = before@.insert(client, value);
            assert(self.wf());
            assert forall|c: ClientId| self@.dom().contains(c) <==> expected.dom().contains(c) by {
                if self@.dom().contains(c) {
                    let k = self.value_has_row(c);
                    if k != at {
                        assert(row_at(a, c, k));
                    }
                }
                if before@.dom().contains(c) {
                    let k = before.value_has_row(c);
                    assert(row_at(b, c, k));
                }
                assert(row_at(b, client, at));
            }
            assert forall|c: ClientId| self@.dom().contains(c) implies self@[c] == expected[c] by {
                let k = self.value_has_row(c);
                if k != at {
                    before.row_is_value(k);
                    assert(b[at].0 == client && b[k].0 == c);
                }
            }
            assert(self@ =~= expected);
        }
    }
}

} // verus!
