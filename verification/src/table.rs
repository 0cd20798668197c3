//! The reconnect state of every endpoint, one entry per endpoint.
use crate::clock::Instant;
use crate::profile::{ClientEndpointId, ConnectTarget, EndpointKey};
use vstd::prelude::*;

verus! {

/// Where one endpoint stands between attempts to connect it.
#[derive(Debug, PartialEq, Eq)]
pub struct ReconnectState {
    pub target: ConnectTarget,
    /// Attempts that failed since the endpoint was last online.
    pub attempts: u32,
    /// When the next attempt is due; none while none is wanted.
    pub next_attempt: Option<Instant>,
    pub in_flight: bool,
    /// The attempt, or the connection it made, that may still report.
    pub generation: Option<u64>,
    /// The next episode is a cheap re-dial: the backoff has the shorter cap
    /// until the endpoint is online again.
    pub fast_reconnect: bool,
}

struct Entry {
    id: ClientEndpointId,
    state: ReconnectState,
}

/// Endpoints and their states. No endpoint has two entries.
pub struct EndpointTable {
    entries: Vec<Entry>,
}

/// The map that pairs `keys[i]` with `states[i]`.
pub open spec fn paired(
    keys: Seq<EndpointKey>,
    states: Seq<ReconnectState>,
) -> Map<EndpointKey, ReconnectState> {
    Map::new(|k: EndpointKey| keys.contains(k), |k: EndpointKey| states[keys.index_of(k)])
}

impl EndpointTable {
    /// The endpoints in the order in which the table holds them.
    pub closed spec fn keys(&self) -> Seq<EndpointKey> {
        Seq::new(self.entries@.len(), |i: int| self.entries@[i].id@)
    }

    /// Their states, in the same order.
    pub closed spec fn states(&self) -> Seq<ReconnectState> {
        Seq::new(self.entries@.len(), |i: int| self.entries@[i].state)
    }

    pub open spec fn wf(&self) -> bool {
        &&& self.keys().no_duplicates()
        &&& self.keys().len() == self.states().len()
    }
}

impl View for EndpointTable {
    type V = Map<EndpointKey, ReconnectState>;

    open spec fn view(&self) -> Map<EndpointKey, ReconnectState> {
        paired(self.keys(), self.states())
    }
}

/// The entry at `i` is what the map has for its key.
pub proof fn lemma_paired(keys: Seq<EndpointKey>, states: Seq<ReconnectState>, i: int)
    requires
        keys.no_duplicates(),
        0 <= i < keys.len(),
    ensures
        paired(keys, states).contains_key(keys[i]),
        paired(keys, states)[keys[i]] == states[i],
{
    assert(keys.contains(keys[i]));
    let j = keys.index_of(keys[i]);
    assert(keys[j] == keys[i]);
}

impl EndpointTable {
    pub fn new() -> (table: EndpointTable)
        ensures
            table.wf(),
            table.keys() == Seq::<EndpointKey>::empty(),
            table@ == Map::<EndpointKey, ReconnectState>::empty(),
    {
        let table = EndpointTable { entries: Vec::new() };
        assert(table.keys() =~= Seq::<EndpointKey>::empty());
        assert(table@ =~= Map::<EndpointKey, ReconnectState>::empty());
        table
    }

    pub fn len(&self) -> (len: usize)
        ensures
            len == self.keys().len(),
    {
        self.entries.len()
    }

    /// The endpoint at `index`.
    pub fn id_at(&self, index: usize) -> (id: &ClientEndpointId)
        requires
            index < self.keys().len(),
        ensures
            id@ == self.keys()[index as int],
    {
        &self.entries[index].id
    }

    /// Its state.
    pub fn state_at(&self, index: usize) -> (state: &ReconnectState)
        requires
            self.wf(),
            index < self.keys().len(),
        ensures
            *state == self@[self.keys()[index as int]],
            *state == self.states()[index as int],
    {
        proof {
            lemma_paired(self.keys(), self.states(), index as int);
        }
        &self.entries[index].state
    }

    /// Hands out the state at `index` to be changed in place.
    pub(crate) fn state_at_mut(&mut self, index: usize) -> (state: &mut ReconnectState)
        requires
            old(self).wf(),
            index < old(self).keys().len(),
        ensures
            *state == old(self)@[old(self).keys()[index as int]],
            final(self).wf(),
            final(self).keys() == old(self).keys(),
            final(self)@ == old(self)@.insert(old(self).keys()[index as int], *final(state)),
    {
        let ghost after = *final(self);
        let state = &mut self.entries[index].state;
        proof {
            let keys = old(self).keys();
            let states = old(self).states();
            lemma_paired(keys, states, index as int);
            assert(after.keys() =~= keys);
            assert(after.states() =~= states.update(index as int, *final(state)));
            lemma_update(keys, states, index as int, *final(state));
        }
        state
    }

    /// Takes the entry at `index` out; those behind it move up.
    pub(crate) fn remove_at(&mut self, index: usize) -> (id: ClientEndpointId)
        requires
            old(self).wf(),
            index < old(self).keys().len(),
        ensures
            id@ == old(self).keys()[index as int],
            final(self).wf(),
            final(self).keys() == old(self).keys().remove(index as int),
            final(self)@ == old(self)@.remove(id@),
    {
        let entry = self.entries.remove(index);
        proof {
            assert(self.keys() =~= old(self).keys().remove(index as int));
            assert(self.states() =~= old(self).states().remove(index as int));
            lemma_remove(old(self).keys(), old(self).states(), index as int);
        }
        entry.id
    }

    fn find(&self, id: &ClientEndpointId) -> (found: Option<usize>)
        ensures
            match found {
                Some(index) => index < self.keys().len() && self.keys()[index as int] == id@,
                None => !self.keys().contains(id@),
            },
    {
        let mut index: usize = 0;
        while index < self.entries.len()
            invariant
                index <= self.entries@.len(),
                forall|i: int| 0 <= i < index ==> self.keys()[i] != id@,
            decreases self.entries@.len() - index,
        {
            if self.entries[index].id.matches(id) {
                return Some(index);
            }
            index = index + 1;
        }
        None
    }

    pub fn get(&self, id: &ClientEndpointId) -> (found: Option<&ReconnectState>)
        requires
            self.wf(),
        ensures
            match found {
                Some(state) => self@.contains_key(id@) && *state == self@[id@],
                None => !self@.contains_key(id@),
            },
    {
        match self.find(id) {
            Some(index) => {
                proof {
                    lemma_paired(self.keys(), self.states(), index as int);
                }
                Some(&self.entries[index].state)
            },
            None => None,
        }
    }

    /// Hands out the endpoint's state to be changed in place.
    pub fn get_mut(&mut self, id: &ClientEndpointId) -> (found: Option<&mut ReconnectState>)
        requires
            old(self).wf(),
        ensures
            final(self).wf(),
            final(self).keys() == old(self).keys(),
            match found {
                Some(state) => {
                    &&& old(self)@.contains_key(id@)
                    &&& *state == old(self)@[id@]
                    &&& final(self)@ == old(self)@.insert(id@, *final(state))
                },
                None => !old(self)@.contains_key(id@) && final(self)@ == old(self)@,
            },
    {
        match self.find(id) {
            Some(index) => {
                proof {
                    lemma_paired(self.keys(), self.states(), index as int);
                }
                let ghost after = *final(self);
                let state = &mut self.entries[index].state;
                proof {
                    let keys = old(self).keys();
                    let states = old(self).states();
                    assert(after.keys() =~= keys);
                    assert(after.states() =~= states.update(index as int, *final(state)));
                    lemma_update(keys, states, index as int, *final(state));
                }
                Some(state)
            },
            None => None,
        }
    }

    /// Gives the endpoint this state, whatever it had before.
    pub fn insert(&mut self, id: ClientEndpointId, state: ReconnectState)
        requires
            old(self).wf(),
        ensures
            final(self).wf(),
            final(self)@ == old(self)@.insert(id@, state),
            final(self).keys() == if old(self)@.contains_key(id@) {
                old(self).keys()
            } else {
                old(self).keys().push(id@)
            },
    {
        match self.find(&id) {
            Some(index) => {
                proof {
                    lemma_paired(old(self).keys(), old(self).states(), index as int);
                }
                *self.state_at_mut(index) = state;
            },
            None => {
                self.entries.push(Entry { id, state });
                proof {
                    assert(self.keys() =~= old(self).keys().push(id@));
                    assert(self.states() =~= old(self).states().push(state));
                    lemma_push(old(self).keys(), old(self).states(), id@, state);
                }
            },
        }
    }
}

proof fn lemma_update(
    keys: Seq<EndpointKey>,
    states: Seq<ReconnectState>,
    index: int,
    state: ReconnectState,
)
    requires
        keys.no_duplicates(),
        keys.len() == states.len(),
        0 <= index < keys.len(),
    ensures
        paired(keys, states.update(index, state)) == paired(keys, states).insert(
            keys[index],
            state,
        ),
{
    let before = paired(keys, states).insert(keys[index], state);
    let after = paired(keys, states.update(index, state));
    assert forall|k: EndpointKey| keys.contains(k) implies after[k] == before[k] by {
        let i = keys.index_of(k);
        assert(keys[i] == k);
        if i != index {
            assert(k != keys[index]);
        }
    }
    assert(keys.contains(keys[index]));
    assert(after =~= before);
}

proof fn lemma_remove(keys: Seq<EndpointKey>, states: Seq<ReconnectState>, index: int)
    requires
        keys.no_duplicates(),
        keys.len() == states.len(),
        0 <= index < keys.len(),
    ensures
        keys.remove(index).no_duplicates(),
        paired(keys.remove(index), states.remove(index)) == paired(keys, states).remove(
            keys[index],
        ),
{
    let fewer = keys.remove(index);
    let before = paired(keys, states).remove(keys[index]);
    let after = paired(fewer, states.remove(index));
    assert forall|k: EndpointKey| after.contains_key(k) == before.contains_key(k) by {
        if fewer.contains(k) {
            let i = fewer.index_of(k);
            let j = if i < index { i } else { i + 1 };
            assert(keys[j] == k);
        }
        if keys.contains(k) && k != keys[index] {
            let j = keys.index_of(k);
            let i = if j < index { j } else { j - 1 };
            assert(fewer[i] == k);
        }
    }
    assert forall|k: EndpointKey| after.contains_key(k) implies after[k] == before[k] by {
        let i = fewer.index_of(k);
        assert(fewer[i] == k);
        let j = if i < index { i } else { i + 1 };
        assert(keys[j] == k);
        assert(keys.index_of(k) == j);
    }
    assert(after =~= before);
}

proof fn lemma_push(
    keys: Seq<EndpointKey>,
    states: Seq<ReconnectState>,
    key: EndpointKey,
    state: ReconnectState,
)
    requires
        keys.no_duplicates(),
        keys.len() == states.len(),
        !keys.contains(key),
    ensures
        keys.push(key).no_duplicates(),
        paired(keys.push(key), states.push(state)) == paired(keys, states).insert(key, state),
{
    let longer = keys.push(key);
    assert forall|i: int, j: int| 0 <= i < j < longer.len() implies longer[i] != longer[j] by {
        if j == keys.len() {
            assert(keys.contains(keys[i]));
        }
    }
    let before = paired(keys, states).insert(key, state);
    let after = paired(longer, states.push(state));
    assert forall|k: EndpointKey| after.contains_key(k) == before.contains_key(k) by {
        if keys.contains(k) {
            assert(longer[keys.index_of(k)] == k);
        }
        assert(longer[keys.len() as int] == key);
        if longer.contains(k) {
            let i = longer.index_of(k);
            if i < keys.len() {
                assert(keys[i] == k);
            }
        }
    }
    assert forall|k: EndpointKey| after.contains_key(k) implies after[k] == before[k] by {
        let i = longer.index_of(k);
        assert(longer[i] == k);
        if i < keys.len() {
            assert(keys[i] == k);
            assert(keys.index_of(k) == i);
        }
    }
    assert(after =~= before);
}

} // verus!
