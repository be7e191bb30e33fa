use std::collections::hash_map::Entry;
use std::collections::HashMap;
use vstd::prelude::*;
use vstd::std_specs::iter::IteratorSpec;

use crate::state::{NodeID, State, StateValue};

verus! {

broadcast use vstd::std_specs::hash::group_hash_axioms;

/// Every registered node is still required at least once.
pub open spec fn all_required(m: Map<u64, State>) -> bool {
    forall|k: u64| #[trigger] m.contains_key(k) ==> m[k].count() > 0
}

/// The map after one use of node `k`: its counter drops by one, and the
/// entry leaves the map when the counter would reach zero.
pub open spec fn after_get(m: Map<u64, State>, k: u64) -> Map<u64, State> {
    if m[k].count() > 1 {
        m.insert(k, m[k].with_count((m[k].count() - 1) as usize))
    } else {
        m.remove(k)
    }
}

/// Every node present in both maps has states that can be merged.
pub open spec fn mergeable(a: Map<u64, State>, b: Map<u64, State>) -> bool {
    forall|k: u64|
        #![trigger a.contains_key(k), b.contains_key(k)]
        a.contains_key(k) && b.contains_key(k) ==> a[k].can_merge(b[k])
}

/// The union of two maps in which the states of a node present in both are
/// merged.
pub open spec fn merge_maps(a: Map<u64, State>, b: Map<u64, State>) -> Map<u64, State> {
    Map::new(
        |k: u64| a.contains_key(k) || b.contains_key(k),
        |k: u64|
            if a.contains_key(k) && b.contains_key(k) {
                a[k].merged(b[k])
            } else if a.contains_key(k) {
                a[k]
            } else {
                b[k]
            },
    )
}

/// The map after `j` uses of node `k`.
pub open spec fn after_gets(m: Map<u64, State>, k: u64, j: nat) -> Map<u64, State>
    decreases j,
{
    if j == 0 {
        m
    } else {
        after_get(after_gets(m, k, (j - 1) as nat), k)
    }
}

/// The retained payloads of nodes present in both maps agree.
pub open spec fn same_payloads(a: Map<u64, State>, b: Map<u64, State>) -> bool {
    forall|k: u64|
        #![trigger a.contains_key(k), b.contains_key(k)]
        a.contains_key(k) && b.contains_key(k) && a[k] is Computed ==> a[k]->state_content
            == b[k]->state_content
}

/// Before the last of `n` uses of a node registered `n` times, the node keeps
/// its payload and has `n - j` uses left after `j` of them, so every use
/// hands out the same value; after the last one the node is gone and the
/// store holds one entry fewer.
pub proof fn lemma_conservation(m: Map<u64, State>, k: u64)
    requires
        m.dom().finite(),
        all_required(m),
        m.contains_key(k),
    ensures
        forall|j: nat|
            j < m[k].count() ==> #[trigger] after_gets(m, k, j) == m.insert(
                k,
                m[k].with_count((m[k].count() - j) as usize),
            ),
        after_gets(m, k, m[k].count() as nat) == m.remove(k),
        after_gets(m, k, m[k].count() as nat).len() == m.len() - 1,
{
    let n = m[k].count() as nat;
    assert forall|j: nat| j < n implies #[trigger] after_gets(m, k, j) == m.insert(
        k,
        m[k].with_count((n - j) as usize),
    ) by {
        lemma_gets_prefix(m, k, j);
    }
    lemma_gets_prefix(m, k, (n - 1) as nat);
    assert(after_gets(m, k, n) =~= m.remove(k));
}

proof fn lemma_gets_prefix(m: Map<u64, State>, k: u64, j: nat)
    requires
        all_required(m),
        m.contains_key(k),
        j < m[k].count(),
    ensures
        after_gets(m, k, j) == m.insert(k, m[k].with_count((m[k].count() - j) as usize)),
    decreases j,
{
    if j == 0 {
        assert(m.insert(k, m[k].with_count(m[k].count())) =~= m);
    } else {
        lemma_gets_prefix(m, k, (j - 1) as nat);
        assert(after_gets(m, k, j) =~= m.insert(k, m[k].with_count((m[k].count() - j) as usize)));
    }
}

/// Each use of a node lowers its counter by exactly one; the node leaves the
/// store only on the use that finds the counter at one.
pub proof fn lemma_get_decrements(m: Map<u64, State>, k: u64)
    requires
        all_required(m),
        m.contains_key(k),
    ensures
        after_get(m, k).contains_key(k) ==> after_get(m, k)[k].count() == m[k].count() - 1,
        !after_get(m, k).contains_key(k) <==> m[k].count() == 1,
        forall|o: u64| o != k ==> after_get(m, k).get(o) == #[trigger] m.get(o),
        all_required(after_get(m, k)),
{
}

/// Merging does not depend on the order of the two sides, as long as a node
/// retained on both sides holds the same payload on both.
pub proof fn lemma_merge_commutative(a: Map<u64, State>, b: Map<u64, State>)
    requires
        mergeable(a, b),
        same_payloads(a, b),
    ensures
        mergeable(b, a),
        merge_maps(a, b) == merge_maps(b, a),
{
    assert(merge_maps(a, b) =~= merge_maps(b, a));
}

/// Merging three stores gives the same result however the merges are grouped.
pub proof fn lemma_merge_associative(
    a: Map<u64, State>,
    b: Map<u64, State>,
    c: Map<u64, State>,
)
    requires
        mergeable(a, b),
        mergeable(merge_maps(a, b), c),
    ensures
        mergeable(b, c),
        mergeable(a, merge_maps(b, c)),
        merge_maps(merge_maps(a, b), c) == merge_maps(a, merge_maps(b, c)),
{
    let ab = merge_maps(a, b);
    assert forall|k: u64| #[trigger] b.contains_key(k) && c.contains_key(k) implies b[k].can_merge(
        c[k],
    ) by {
        assert(ab.contains_key(k));
    }
    let bc = merge_maps(b, c);
    assert forall|k: u64| #[trigger] a.contains_key(k) && bc.contains_key(k) implies a[k].can_merge(
        bc[k],
    ) by {
        assert(ab.contains_key(k));
    }
    assert(merge_maps(ab, c) =~= merge_maps(a, bc));
}

/// Saving a value for a node registered once and then using it hands the
/// same value back and removes the node.
pub proof fn lemma_save_then_get<T: StateValue>(m: Map<u64, State>, k: u64, v: T)
    requires
        m.contains_key(k),
        m[k].count() == 1,
    ensures
        ({
            let saved = m.insert(
                k,
                State::Computed { state_content: v.content_of(), n_required: m[k].count() },
            );
            &&& T::value_of(saved[k]->state_content) == Some(v)
            &&& after_get(saved, k) == m.remove(k)
        }),
{
    T::lemma_round_trip(v);
    let saved = m.insert(
        k,
        State::Computed { state_content: v.content_of(), n_required: m[k].count() },
    );
    assert(after_get(saved, k) =~= m.remove(k));
}

/// Links node identifiers to their current [`State`].
pub struct BackwardStates {
    map: HashMap<u64, State>,
}

impl View for BackwardStates {
    type V = Map<u64, State>;

    closed spec fn view(&self) -> Map<u64, State> {
        self.map@
    }
}

/// The keys of `m`, each once.
fn key_list(m: &HashMap<u64, State>) -> (r: Vec<u64>)
    ensures
        r@.no_duplicates(),
        r@.to_set() == m@.dom(),
{
    let mut keys: Vec<u64> = Vec::new();
    for k in it: m.keys()
        invariant
            keys@ == it.seq().take(it.index()).unref(),
            it.seq() == m.keys().remaining(),
    {
        keys.push(*k);
    }
    proof {
        assert(keys@ =~= m.keys().remaining().unref());
    }
    keys
}

impl BackwardStates {
    pub open spec fn wf(&self) -> bool {
        all_required(self@)
    }

    pub fn new() -> (r: BackwardStates)
        ensures
            r@ == Map::<u64, State>::empty(),
            r.wf(),
    {
        BackwardStates { map: HashMap::new() }
    }

    /// Associates `state` with `node_id`, replacing any earlier entry.
    pub fn insert_state(&mut self, node_id: NodeID, state: State)
        ensures
            final(self)@ == old(self)@.insert(node_id.value, state),
            old(self).wf() && state.count() > 0 ==> final(self).wf(),
    {
        self.map.insert(node_id.value, state);
    }

    /// The state of `node_id`, without using it up.
    pub fn get_state_ref(&self, node_id: &NodeID) -> (r: Option<&State>)
        ensures
            match r {
                Some(s) => self@.contains_key(node_id.value) && *s == self@[node_id.value],
                None => !self@.contains_key(node_id.value),
            },
    {
        self.map.get(&node_id.value)
    }

    /// Hands out the payload of `node_id` as a `T` and uses it up once.
    /// While uses remain, the stored state keeps its payload with one use
    /// fewer and the caller gets a copy; the last use removes the entry and
    /// hands out the stored value itself.
    pub fn get_state<T: StateValue>(&mut self, node_id: &NodeID) -> (r: T)
        requires
            old(self).wf(),
            old(self)@.contains_key(node_id.value),
            old(self)@[node_id.value] is Computed,
            T::value_of(old(self)@[node_id.value]->state_content) is Some,
        ensures
            Some(r) == T::value_of(old(self)@[node_id.value]->state_content),
            final(self)@ == after_get(old(self)@, node_id.value),
            final(self).wf(),
    {
        let state = self.map.remove(&node_id.value).unwrap();
        let remaining_n_required = state.n_required() - 1;
        if remaining_n_required > 0 {
            let new_stored_state = match state {
                State::Recompute { .. } => State::Recompute { n_required: remaining_n_required },
                State::Computed { state_content, .. } => State::Computed {
                    state_content,
                    n_required: remaining_n_required,
                },
            };
            let downcasted = T::from_content_ref(new_stored_state.to_state_content()).unwrap();
            self.insert_state(*node_id, new_stored_state);
            proof {
                assert(self@ =~= after_get(old(self)@, node_id.value));
            }
            downcasted
        } else {
            proof {
                assert(self@ =~= after_get(old(self)@, node_id.value));
            }
            T::from_content(state.into_state_content()).unwrap()
        }
    }

    /// Stores the output of a registered node, keeping its counter.
    pub fn save<T: StateValue>(&mut self, node_id: NodeID, saved_output: T)
        requires
            old(self).wf(),
            old(self)@.contains_key(node_id.value),
        ensures
            final(self)@ == old(self)@.insert(
                node_id.value,
                State::Computed {
                    state_content: saved_output.content_of(),
                    n_required: old(self)@[node_id.value].count(),
                },
            ),
            final(self).wf(),
    {
        let n_required = self.get_state_ref(&node_id).unwrap().n_required();
        self.insert_state(
            node_id,
            State::Computed { state_content: saved_output.into_content(), n_required },
        );
    }

    /// Mutable access to the state of `node_id`, e.g. to add a use.
    pub fn get_mut(&mut self, node_id: &NodeID) -> (r: Option<&mut State>)
        ensures
            match r {
                Some(s) => {
                    &&& old(self)@.contains_key(node_id.value)
                    &&& *s == old(self)@[node_id.value]
                    &&& final(self)@ == old(self)@.insert(node_id.value, *final(s))
                },
                None => {
                    &&& !old(self)@.contains_key(node_id.value)
                    &&& final(self)@ == old(self)@
                },
            },
    {
        match self.map.entry(node_id.value) {
            Entry::Occupied(e) => Some(e.into_mut()),
            Entry::Vacant(_) => {
                proof {
                    assert(old(self)@.remove(node_id.value) =~= old(self)@);
                }
                None
            },
        }
    }

    /// Merges the states of `other` into `self`: a node present on both
    /// sides gets the merge of its two states, any other node is moved over.
    pub fn extend(&mut self, other: BackwardStates)
        requires
            mergeable(old(self)@, other@),
        ensures
            final(self)@ == merge_maps(old(self)@, other@),
            old(self).wf() && other.wf() ==> final(self).wf(),
    {
        let ghost a = self@;
        let ghost b = other@;
        let mut other = other;
        let keys = key_list(&other.map);
        let mut i: usize = 0;
        while i < keys.len()
            invariant
                keys@.no_duplicates(),
                keys@.to_set() == b.dom(),
                0 <= i <= keys@.len(),
                mergeable(a, b),
                forall|j: int| i <= j < keys@.len() ==> other.map@.contains_key(#[trigger] keys@[j]),
                other.map@ == b.remove_keys(keys@.take(i as int).to_set()),
                self@ == merge_maps(a, b.restrict(keys@.take(i as int).to_set())),
            decreases keys.len() - i,
        {
            let k = keys[i];
            let state = other.map.remove(&k).unwrap();
            match self.map.remove(&k) {
                Some(mut s) => {
                    s.merge(state);
                    self.map.insert(k, s);
                },
                None => {
                    self.map.insert(k, state);
                },
            }
            i += 1;
            proof {
                let done = keys@.take(i as int).to_set();
                assert(keys@.take(i as int) == keys@.take(i - 1).push(k));
                keys@.take(i - 1).lemma_push_to_set_commute(k);
                assert(self@ =~= merge_maps(a, b.restrict(done)));
                assert(other.map@ =~= b.remove_keys(done));
            }
        }
        proof {
            assert(keys@.take(keys@.len() as int) == keys@);
            assert(b.restrict(b.dom()) =~= b);
            assert(self@ =~= merge_maps(a, b));
        }
    }

    /// Number of registered nodes.
    pub fn len(&self) -> (r: usize)
        ensures
            r == self@.len(),
    {
        self.map.len()
    }
}

impl Default for BackwardStates {
    fn default() -> (r: BackwardStates)
        ensures
            r@ == Map::<u64, State>::empty(),
    {
        BackwardStates::new()
    }
}

} // verus!
