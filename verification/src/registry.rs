//! The shared state of a crawl: which nodes have been claimed, what their
//! fetches returned, and which edges have been discovered.

use std::collections::HashMap;
use std::collections::HashSet;
use vstd::prelude::*;

verus! {

/// Canonical identifier of a graph vertex.
pub type NodeId = u64;

/// What fetching one node returned.
#[derive(Debug, Clone, PartialEq, Eq)]
pub enum FetchOutcome {
    /// The content of the node.
    Success(String),
    /// Why the content could not be retrieved.
    Failure(String),
}

impl FetchOutcome {
    /// Whether this outcome carries content.
    pub fn is_success(&self) -> (b: bool)
        ensures
            b == (*self is Success),
    {
        match self {
            FetchOutcome::Success(_) => true,
            FetchOutcome::Failure(_) => false,
        }
    }
}

/// Records which nodes have been claimed, in the order of their claims, and
/// the outcome of each fetch once it is known.
pub struct VisitedRegistry {
    order: Vec<NodeId>,
    slots: HashMap<NodeId, usize>,
    outcomes: Vec<Option<FetchOutcome>>,
}

impl VisitedRegistry {
    /// The claimed nodes, oldest claim first.
    pub closed spec fn claims(&self) -> Seq<NodeId> {
        self.order@
    }

    /// The outcomes recorded so far.
    pub closed spec fn outcomes(&self) -> Map<NodeId, FetchOutcome> {
        Map::new(
            |id: NodeId|
                self.slots@.contains_key(id) && 0 <= self.slots@[id] < self.outcomes@.len()
                    && self.outcomes@[self.slots@[id] as int] is Some,
            |id: NodeId| self.outcomes@[self.slots@[id] as int]->Some_0,
        )
    }

    /// Whether `id` has been claimed.
    pub open spec fn is_claimed(&self, id: NodeId) -> bool {
        self.claims().contains(id)
    }

    /// Whether `id` has been claimed and its outcome is still awaited.
    pub open spec fn in_flight(&self, id: NodeId) -> bool {
        self.is_claimed(id) && !self.outcomes().contains_key(id)
    }

    /// The invariant of the registry: no node is claimed twice, and only
    /// claimed nodes have outcomes.
    pub closed spec fn wf(&self) -> bool {
        &&& self.order@.len() == self.outcomes@.len()
        &&& forall|id: NodeId| #[trigger]
            self.slots@.contains_key(id) ==> 0 <= self.slots@[id] < self.order@.len()
                && self.order@[self.slots@[id] as int] == id
        &&& forall|i: int|
            0 <= i < self.order@.len() ==> self.slots@.contains_key(#[trigger] self.order@[i])
                && self.slots@[self.order@[i]] == i
    }

    /// What the invariant says of the views.
    pub proof fn lemma_wf(&self)
        requires
            self.wf(),
        ensures
            self.claims().no_duplicates(),
            forall|id: NodeId| #[trigger]
                self.outcomes().contains_key(id) ==> self.is_claimed(id),
    {
        assert forall|id: NodeId| #[trigger]
            self.outcomes().contains_key(id) implies self.is_claimed(id) by {
            assert(self.order@[self.slots@[id] as int] == id);
        }
    }

    /// An empty registry.
    pub fn new() -> (r: Self)
        ensures
            r.wf(),
            r.claims() == Seq::<NodeId>::empty(),
            r.outcomes() == Map::<NodeId, FetchOutcome>::empty(),
    {
        let r = VisitedRegistry { order: Vec::new(), slots: HashMap::new(), outcomes: Vec::new() };
        assert(r.outcomes() =~= Map::<NodeId, FetchOutcome>::empty());
        r
    }

    /// Claims `id` for the caller if nobody has claimed it before.
    ///
    /// The check and the mark are one step: of any number of attempts on one
    /// node exactly the first succeeds.
    pub fn try_claim(&mut self, id: NodeId) -> (won: bool)
        requires
            old(self).wf(),
        ensures
            final(self).wf(),
            won == !old(self).is_claimed(id),
            final(self).claims() == if won {
                old(self).claims().push(id)
            } else {
                old(self).claims()
            },
            final(self).outcomes() == old(self).outcomes(),
    {
        broadcast use vstd::std_specs::hash::group_hash_axioms;

        if self.slots.contains_key(&id) {
            assert(self.order@[self.slots@[id] as int] == id);
            return false;
        }
        let slot = self.order.len();
        self.order.push(id);
        self.outcomes.push(None);
        self.slots.insert(id, slot);
        proof {
            assert(!old(self).order@.contains(id)) by {
                if old(self).order@.contains(id) {
                    let i = choose|i: int| 0 <= i < old(self).order@.len() && old(self).order@[i] == id;
                    assert(old(self).slots@.contains_key(old(self).order@[i]));
                }
            }
            assert(self.outcomes() =~= old(self).outcomes());
        }
        true
    }

    /// Stores the outcome of fetching `id`, once.
    ///
    /// The outcome is kept exactly when `id` has been claimed and no outcome
    /// has been recorded for it yet; otherwise the registry stays as it was,
    /// so a recorded outcome never changes.
    pub fn record_outcome(&mut self, id: NodeId, outcome: FetchOutcome) -> (recorded: bool)
        requires
            old(self).wf(),
        ensures
            final(self).wf(),
            recorded == old(self).in_flight(id),
            final(self).claims() == old(self).claims(),
            final(self).outcomes() == if recorded {
                old(self).outcomes().insert(id, outcome)
            } else {
                old(self).outcomes()
            },
    {
        broadcast use vstd::std_specs::hash::group_hash_axioms;

        let slot = match self.slots.get(&id) {
            Some(slot) => *slot,
            None => {
                proof {
                    old(self).lemma_wf();
                    if old(self).order@.contains(id) {
                        let i = choose|i: int|
                            0 <= i < old(self).order@.len() && old(self).order@[i] == id;
                        assert(old(self).slots@.contains_key(old(self).order@[i]));
                    }
                }
                return false;
            },
        };
        assert(self.order@[slot as int] == id);
        if self.outcomes[slot].is_some() {
            return false;
        }
        self.outcomes.set(slot, Some(outcome));
        proof {
            assert forall|other: NodeId| #[trigger]
                self.slots@.contains_key(other) && self.slots@[other] == slot implies other
                == id by {
                assert(self.order@[self.slots@[other] as int] == other);
            }
            assert(self.outcomes() =~= old(self).outcomes().insert(id, outcome));
        }
        true
    }

    /// The outcome recorded for `id`, if there is one.
    pub fn get(&self, id: NodeId) -> (r: Option<&FetchOutcome>)
        requires
            self.wf(),
        ensures
            match r {
                Some(outcome) => self.outcomes().contains_key(id) && self.outcomes()[id]
                    == *outcome,
                None => !self.outcomes().contains_key(id),
            },
    {
        broadcast use vstd::std_specs::hash::group_hash_axioms;

        match self.slots.get(&id) {
            Some(slot) => self.outcomes[*slot].as_ref(),
            None => None,
        }
    }

    /// How many nodes have been claimed.
    pub fn len(&self) -> (n: usize)
        requires
            self.wf(),
        ensures
            n == self.claims().len(),
    {
        self.order.len()
    }

    /// The position of `id` among the claims, if it has been claimed.
    pub fn index_of(&self, id: NodeId) -> (r: Option<usize>)
        requires
            self.wf(),
        ensures
            match r {
                Some(i) => i < self.claims().len() && self.claims()[i as int] == id,
                None => !self.is_claimed(id),
            },
    {
        broadcast use vstd::std_specs::hash::group_hash_axioms;

        match self.slots.get(&id) {
            Some(slot) => Some(*slot),
            None => {
                proof {
                    if self.order@.contains(id) {
                        let i = choose|i: int| 0 <= i < self.order@.len() && self.order@[i] == id;
                        assert(self.slots@.contains_key(self.order@[i]));
                    }
                }
                None
            },
        }
    }

    /// Whether every claimed node has its outcome.
    pub fn is_settled(&self) -> (b: bool)
        requires
            self.wf(),
        ensures
            b == (forall|id: NodeId| self.is_claimed(id) ==> self.outcomes().contains_key(id)),
    {
        let mut i: usize = 0;
        while i < self.outcomes.len()
            invariant
                self.wf(),
                i <= self.outcomes@.len(),
                forall|j: int| 0 <= j < i ==> self.outcomes@[j] is Some,
            decreases self.outcomes@.len() - i,
        {
            if self.outcomes[i].is_none() {
                proof {
                    let id = self.order@[i as int];
                    assert(self.slots@.contains_key(id));
                    assert(self.is_claimed(id));
                    assert(!self.outcomes().contains_key(id));
                }
                return false;
            }
            i += 1;
        }
        proof {
            assert forall|id: NodeId| self.is_claimed(id) implies self.outcomes().contains_key(
                id,
            ) by {
                let j = choose|j: int| 0 <= j < self.order@.len() && self.order@[j] == id;
                assert(self.slots@.contains_key(self.order@[j]));
            }
        }
        true
    }

    /// Gives up the registry for its contents: the claimed nodes in claim
    /// order, and beside each its outcome.
    pub fn drain(self) -> (r: (Vec<NodeId>, Vec<FetchOutcome>))
        requires
            self.wf(),
            forall|id: NodeId| self.is_claimed(id) ==> self.outcomes().contains_key(id),
        ensures
            r.0@ == self.claims(),
            r.1@.len() == r.0@.len(),
            forall|i: int|
                0 <= i < r.0@.len() ==> self.outcomes().contains_key(#[trigger] r.0@[i])
                    && self.outcomes()[r.0@[i]] == r.1@[i],
    {
        let VisitedRegistry { order, slots, outcomes } = self;
        let ghost recorded = outcomes@;
        proof {
            assert forall|i: int| 0 <= i < recorded.len() implies recorded[i] is Some by {
                let id = order@[i];
                assert(slots@.contains_key(id));
                assert(self.is_claimed(id));
                assert(self.outcomes().contains_key(id));
            }
        }
        let mut pages: Vec<FetchOutcome> = Vec::new();
        for slot in slots_left: outcomes.into_iter()
            invariant
                slots_left.seq() == recorded,
                forall|i: int| 0 <= i < recorded.len() ==> recorded[i] is Some,
                pages@.len() == slots_left.index(),
                forall|i: int| 0 <= i < pages@.len() ==> Some(#[trigger] pages@[i]) == recorded[i],
        {
            if let Some(outcome) = slot {
                pages.push(outcome);
            }
        }
        proof {
            assert forall|i: int| 0 <= i < order@.len() implies self.outcomes().contains_key(
                #[trigger] order@[i],
            ) && self.outcomes()[order@[i]] == pages@[i] by {
                assert(slots@.contains_key(order@[i]));
                assert(self.is_claimed(order@[i]));
            }
        }
        (order, pages)
    }
}

impl Default for VisitedRegistry {
    fn default() -> (r: Self)
        ensures
            r.wf(),
            r.claims() == Seq::<NodeId>::empty(),
            r.outcomes() == Map::<NodeId, FetchOutcome>::empty(),
    {
        VisitedRegistry::new()
    }
}

/// The key under which the edge from `parent` to `child` is looked up.
spec fn edge_key(parent: NodeId, child: NodeId) -> u128 {
    (parent * 0x1_0000_0000_0000_0000 + child) as u128
}

/// Records the edges discovered so far, each ordered pair at most once, in
/// the order of discovery.
pub struct EdgeRegistry {
    pairs: Vec<(NodeId, NodeId)>,
    keys: HashSet<u128>,
}

impl EdgeRegistry {
    /// The recorded edges as (parent, child), oldest first.
    pub closed spec fn pairs(&self) -> Seq<(NodeId, NodeId)> {
        self.pairs@
    }

    /// The invariant of the registry: no ordered pair is recorded twice.
    pub closed spec fn wf(&self) -> bool {
        &&& self.pairs@.no_duplicates()
        &&& forall|parent: NodeId, child: NodeId|
            self.keys@.contains(#[trigger] edge_key(parent, child)) <==> self.pairs@.contains(
                (parent, child),
            )
    }

    /// What the invariant says of the view.
    pub proof fn lemma_wf(&self)
        requires
            self.wf(),
        ensures
            self.pairs().no_duplicates(),
    {
    }

    /// An empty registry.
    pub fn new() -> (r: Self)
        ensures
            r.wf(),
            r.pairs() == Seq::<(NodeId, NodeId)>::empty(),
    {
        EdgeRegistry { pairs: Vec::new(), keys: HashSet::new() }
    }

    /// Records the edge from `parent` to `child` unless it is already there,
    /// and says whether it was new.
    pub fn insert_if_new(&mut self, parent: NodeId, child: NodeId) -> (added: bool)
        requires
            old(self).wf(),
        ensures
            final(self).wf(),
            added == !old(self).pairs().contains((parent, child)),
            final(self).pairs() == if added {
                old(self).pairs().push((parent, child))
            } else {
                old(self).pairs()
            },
    {
        broadcast use vstd::std_specs::hash::group_hash_axioms;

        let key: u128 = (parent as u128) * 0x1_0000_0000_0000_0000u128 + (child as u128);
        assert(key == edge_key(parent, child));
        if !self.keys.insert(key) {
            return false;
        }
        self.pairs.push((parent, child));
        proof {
            assert forall|p: NodeId, c: NodeId|
                self.keys@.contains(#[trigger] edge_key(p, c)) <==> self.pairs@.contains(
                    (p, c),
                ) by {
                if edge_key(p, c) == key {
                    assert(p == parent && c == child);
                    assert(self.pairs@[self.pairs@.len() - 1] == (p, c));
                } else {
                    if old(self).pairs@.contains((p, c)) {
                        let i = choose|i: int|
                            0 <= i < old(self).pairs@.len() && old(self).pairs@[i] == (p, c);
                        assert(self.pairs@[i] == (p, c));
                    }
                }
            }
        }
        true
    }

    /// Whether the edge from `parent` to `child` has been recorded.
    pub fn contains(&self, parent: NodeId, child: NodeId) -> (b: bool)
        requires
            self.wf(),
        ensures
            b == self.pairs().contains((parent, child)),
    {
        broadcast use vstd::std_specs::hash::group_hash_axioms;

        let key: u128 = (parent as u128) * 0x1_0000_0000_0000_0000u128 + (child as u128);
        assert(key == edge_key(parent, child));
        self.keys.contains(&key)
    }

    /// How many edges have been recorded.
    pub fn len(&self) -> (n: usize)
        requires
            self.wf(),
        ensures
            n == self.pairs().len(),
    {
        self.pairs.len()
    }

    /// The edge recorded at position `k`, if there is one.
    pub fn pair(&self, k: usize) -> (r: Option<(NodeId, NodeId)>)
        requires
            self.wf(),
        ensures
            r == if k < self.pairs().len() {
                Some(self.pairs()[k as int])
            } else {
                None
            },
    {
        if k < self.pairs.len() {
            Some(self.pairs[k])
        } else {
            None
        }
    }

    /// Gives up the registry for its edges, oldest first.
    pub fn drain(self) -> (r: Vec<(NodeId, NodeId)>)
        requires
            self.wf(),
        ensures
            r@ == self.pairs(),
    {
        self.pairs
    }
}

impl Default for EdgeRegistry {
    fn default() -> (r: Self)
        ensures
            r.wf(),
            r.pairs() == Seq::<(NodeId, NodeId)>::empty(),
    {
        EdgeRegistry::new()
    }
}

} // verus!
