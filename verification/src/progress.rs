//! The abstract state of a crawl, and the steps that change it.
//!
//! Everything here is mathematics: the engine's contracts are stated over
//! these definitions, and the laws of a crawl are proved of them.

use crate::registry::FetchOutcome;
use crate::registry::NodeId;
use crate::seqs::distinct;
use crate::seqs::lemma_distinct;
use vstd::prelude::*;

verus! {

/// The number of node identifiers there are.
pub open spec fn id_space() -> int {
    0x1_0000_0000_0000_0000
}

/// The children that an extraction names: none where it gave nothing.
pub open spec fn listed(children: Option<Vec<NodeId>>) -> Seq<NodeId> {
    match children {
        Some(list) => list@,
        None => Seq::empty(),
    }
}

/// The edges from `parent` to each of `children`, in their order.
pub open spec fn edges_from(parent: NodeId, children: Seq<NodeId>) -> Seq<(NodeId, NodeId)> {
    Seq::new(children.len(), |i: int| (parent, children[i]))
}

/// Whether `after` begins with all of `before`.
pub open spec fn grows_to<A>(before: Seq<A>, after: Seq<A>) -> bool {
    &&& before.len() <= after.len()
    &&& forall|i: int|
        #![trigger before[i]]
        #![trigger after[i]]
        0 <= i < before.len() ==> before[i] == after[i]
}

/// A sequence of node identifiers without repetition is no longer than the
/// identifier space is large.
pub proof fn lemma_ids_bounded(s: Seq<NodeId>)
    requires
        s.no_duplicates(),
    ensures
        s.len() <= id_space(),
{
    let ids = s.to_set();
    s.unique_seq_to_set();
    vstd::seq_lib::seq_to_set_is_finite(s);
    let number = |id: NodeId| id as int;
    let numbers = ids.map(number);
    vstd::set_lib::lemma_map_size(ids, numbers, number);
    let all = vstd::set_lib::set_int_range(0, id_space());
    vstd::set_lib::lemma_int_range(0, id_space());
    assert(numbers.subset_of(all));
    vstd::set_lib::lemma_len_subset(numbers, all);
}

/// The abstract state of a crawl: which nodes have been claimed, what their
/// fetches returned, and which edges have been recorded.
pub struct Progress {
    /// The claimed nodes, oldest claim first.
    pub claims: Seq<NodeId>,
    /// The outcome of each fetch that has returned.
    pub outcomes: Map<NodeId, FetchOutcome>,
    /// The recorded edges as (parent, child), oldest first.
    pub pairs: Seq<(NodeId, NodeId)>,
}

impl Progress {
    /// The state before anything has been claimed.
    pub open spec fn start() -> Progress {
        Progress { claims: Seq::empty(), outcomes: Map::empty(), pairs: Seq::empty() }
    }

    /// Whether `id` has been claimed.
    pub open spec fn is_claimed(self, id: NodeId) -> bool {
        self.claims.contains(id)
    }

    /// Whether `id` has been claimed and its outcome is still awaited.
    pub open spec fn in_flight(self, id: NodeId) -> bool {
        self.is_claimed(id) && !self.outcomes.contains_key(id)
    }

    /// What holds of every state that a crawl reaches: no node is claimed
    /// twice, no edge is recorded twice, only claimed nodes have outcomes,
    /// and every edge leaves a node whose fetch succeeded.
    pub open spec fn consistent(self) -> bool {
        &&& self.claims.no_duplicates()
        &&& self.pairs.no_duplicates()
        &&& forall|id: NodeId| #[trigger]
            self.outcomes.contains_key(id) ==> self.claims.contains(id)
        &&& forall|k: int|
            0 <= k < self.pairs.len() ==> self.outcomes.contains_key((#[trigger] self.pairs[k]).0)
                && self.outcomes[self.pairs[k].0] is Success
    }

    /// The state after an attempt to claim `id`.
    pub open spec fn claim(self, id: NodeId) -> Progress {
        if self.is_claimed(id) {
            self
        } else {
            Progress { claims: self.claims.push(id), ..self }
        }
    }

    /// The children to visit once the fetch of `id` has returned `outcome`
    /// and the extraction has named `children`: each named child once, and
    /// none after a failure or for a node that is not in flight.
    pub open spec fn frontier(self, id: NodeId, outcome: FetchOutcome, children: Seq<NodeId>) -> Seq<
        NodeId,
    > {
        if self.in_flight(id) && outcome is Success {
            distinct(children)
        } else {
            Seq::empty()
        }
    }

    /// The state after the fetch of `id` has returned `outcome` and the
    /// extraction has named `children`.
    pub open spec fn expand(self, id: NodeId, outcome: FetchOutcome, children: Seq<NodeId>) -> Progress {
        if self.in_flight(id) {
            Progress {
                claims: self.claims,
                outcomes: self.outcomes.insert(id, outcome),
                pairs: self.pairs + edges_from(id, self.frontier(id, outcome, children)),
            }
        } else {
            self
        }
    }

    /// Whether `id` is done: its outcome is known and every child it names
    /// has been claimed.
    pub open spec fn settled(self, id: NodeId) -> bool {
        &&& self.outcomes.contains_key(id)
        &&& forall|child: NodeId| #[trigger]
            self.pairs.contains((id, child)) ==> self.claims.contains(child)
    }

    /// Whether the crawl has come to rest: every claimed node is done.
    pub open spec fn quiescent(self) -> bool {
        forall|id: NodeId| #[trigger] self.claims.contains(id) ==> self.settled(id)
    }

    /// Whether `id` was found through an edge from a node claimed before it.
    pub open spec fn discovered(self, id: NodeId) -> bool {
        exists|i: int, j: int|
            0 <= i < j < self.claims.len() && self.claims[j] == id && #[trigger] self.pairs.contains(
                (self.claims[i], self.claims[j]),
            )
    }

    /// Whether `later` can follow `self`: claims, outcomes and edges are
    /// only added, and every added edge leaves a node that `self` had not
    /// claimed.
    pub open spec fn leads_to(self, later: Progress) -> bool {
        &&& grows_to(self.claims, later.claims)
        &&& grows_to(self.pairs, later.pairs)
        &&& self.outcomes.submap_of(later.outcomes)
        &&& forall|k: int|
            self.pairs.len() <= k < later.pairs.len() ==> !self.claims.contains(
                (#[trigger] later.pairs[k]).0,
            )
        &&& forall|id: NodeId|
            self.claims.contains(id) && #[trigger] later.outcomes.contains_key(id)
                ==> self.outcomes.contains_key(id)
    }

    /// Whether what is recorded of `id` is what the collaborators returned:
    /// its outcome is one that `fetch` gives for it; after a failure no edge
    /// leaves it; after a success the edges that leave it lead to exactly
    /// the children that `extract` named for its content.
    pub open spec fn explained<F, X>(self, fetch: F, extract: X, id: NodeId) -> bool where
        F: Fn(NodeId) -> FetchOutcome,
        X: Fn(NodeId, &String) -> Option<Vec<NodeId>>,
     {
        &&& self.outcomes.contains_key(id)
        &&& call_ensures(fetch, (id,), self.outcomes[id])
        &&& match self.outcomes[id] {
            FetchOutcome::Success(body) => exists|named: Option<Vec<NodeId>>|
                {
                    &&& #[trigger] call_ensures(extract, (id, &body), named)
                    &&& forall|child: NodeId|
                        self.pairs.contains((id, child)) <==> listed(named).contains(child)
                },
            FetchOutcome::Failure(_) => forall|child: NodeId| !self.pairs.contains((id, child)),
        }
    }

    /// Whether each node claimed at a position from `lo` up to `hi` is done,
    /// explained by the collaborators, and was found through an edge.
    pub open spec fn explored<F, X>(self, fetch: F, extract: X, lo: int, hi: int) -> bool where
        F: Fn(NodeId) -> FetchOutcome,
        X: Fn(NodeId, &String) -> Option<Vec<NodeId>>,
     {
        forall|k: int|
            lo <= k < hi && 0 <= k < self.claims.len() ==> {
                &&& self.settled(#[trigger] self.claims[k])
                &&& self.explained(fetch, extract, self.claims[k])
                &&& self.discovered(self.claims[k])
            }
    }

    /// Every state leads to itself.
    pub proof fn lemma_leads_to_self(self)
        ensures
            self.leads_to(self),
    {
    }

    /// What one state leads to, and that to a third, the first leads to.
    pub proof fn lemma_leads_to_chain(self, mid: Progress, later: Progress)
        requires
            self.leads_to(mid),
            mid.leads_to(later),
        ensures
            self.leads_to(later),
    {
        assert forall|k: int| self.pairs.len() <= k < later.pairs.len() implies !self.claims.contains(
            (#[trigger] later.pairs[k]).0,
        ) by {
            let source = later.pairs[k].0;
            if self.claims.contains(source) {
                let i = choose|i: int| 0 <= i < self.claims.len() && self.claims[i] == source;
                assert(mid.claims[i] == source);
                if k < mid.pairs.len() {
                    assert(mid.pairs[k] == later.pairs[k]);
                }
            }
        }
        assert forall|id: NodeId|
            self.claims.contains(id) && #[trigger] later.outcomes.contains_key(
                id,
            ) implies self.outcomes.contains_key(id) by {
            let i = choose|i: int| 0 <= i < self.claims.len() && self.claims[i] == id;
            assert(mid.claims[i] == id);
            assert(mid.outcomes.contains_key(id));
        }
        assert forall|id: NodeId| #[trigger]
            self.outcomes.dom().contains(id) implies later.outcomes.dom().contains(id)
            && self.outcomes[id] == later.outcomes[id] by {
            assert(mid.outcomes.dom().contains(id));
        }
        assert forall|i: int| 0 <= i < self.claims.len() implies self.claims[i]
            == later.claims[i] by {
            assert(self.claims[i] == mid.claims[i]);
        }
        assert forall|i: int| 0 <= i < self.pairs.len() implies self.pairs[i] == later.pairs[i] by {
            assert(self.pairs[i] == mid.pairs[i]);
        }
    }

    /// The edges that leave a claimed node are fixed: no later state adds
    /// to them.
    pub proof fn lemma_out_edges_fixed(self, later: Progress, id: NodeId, child: NodeId)
        requires
            self.leads_to(later),
            self.claims.contains(id),
        ensures
            self.pairs.contains((id, child)) <==> later.pairs.contains((id, child)),
    {
        if self.pairs.contains((id, child)) {
            let k = choose|k: int| 0 <= k < self.pairs.len() && self.pairs[k] == (id, child);
            assert(later.pairs[k] == (id, child));
        }
        if later.pairs.contains((id, child)) {
            let k = choose|k: int| 0 <= k < later.pairs.len() && later.pairs[k] == (id, child);
            if k < self.pairs.len() {
                assert(self.pairs[k] == later.pairs[k]);
            }
        }
    }

    /// A claimed node stays claimed, at its position.
    pub proof fn lemma_claim_kept(self, later: Progress, id: NodeId)
        requires
            self.leads_to(later),
            self.claims.contains(id),
        ensures
            later.claims.contains(id),
    {
        let i = choose|i: int| 0 <= i < self.claims.len() && self.claims[i] == id;
        assert(later.claims[i] == id);
    }

    /// A node that is done stays done.
    pub proof fn lemma_settled_kept(self, later: Progress, id: NodeId)
        requires
            self.consistent(),
            self.leads_to(later),
            self.settled(id),
        ensures
            later.settled(id),
    {
        assert forall|child: NodeId| #[trigger]
            later.pairs.contains((id, child)) implies later.claims.contains(child) by {
            self.lemma_out_edges_fixed(later, id, child);
            self.lemma_claim_kept(later, child);
        }
    }

    /// A node that was found through an edge stays so.
    pub proof fn lemma_discovered_kept(self, later: Progress, id: NodeId)
        requires
            self.leads_to(later),
            self.discovered(id),
        ensures
            later.discovered(id),
    {
        let (i, j) = choose|i: int, j: int|
            0 <= i < j < self.claims.len() && self.claims[j] == id && #[trigger] self.pairs.contains(
                (self.claims[i], self.claims[j]),
            );
        assert(self.claims.contains(self.claims[i]));
        self.lemma_out_edges_fixed(later, self.claims[i], self.claims[j]);
        assert(later.claims[i] == self.claims[i]);
        assert(later.claims[j] == self.claims[j]);
    }

    /// What is explained of a node stays explained.
    pub proof fn lemma_explained_kept<F, X>(
        self,
        later: Progress,
        fetch: F,
        extract: X,
        id: NodeId,
    ) where F: Fn(NodeId) -> FetchOutcome, X: Fn(NodeId, &String) -> Option<Vec<NodeId>>
        requires
            self.consistent(),
            self.leads_to(later),
            self.explained(fetch, extract, id),
        ensures
            later.explained(fetch, extract, id),
    {
        assert(later.outcomes.contains_key(id) && later.outcomes[id] == self.outcomes[id]);
        assert forall|child: NodeId|
            self.pairs.contains((id, child)) <==> later.pairs.contains((id, child)) by {
            self.lemma_out_edges_fixed(later, id, child);
        }
        match self.outcomes[id] {
            FetchOutcome::Success(body) => {
                let named = choose|named: Option<Vec<NodeId>>|
                    {
                        &&& #[trigger] call_ensures(extract, (id, &body), named)
                        &&& forall|child: NodeId|
                            self.pairs.contains((id, child)) <==> listed(named).contains(child)
                    };
                assert(call_ensures(extract, (id, &body), named));
                assert forall|child: NodeId|
                    later.pairs.contains((id, child)) <==> listed(named).contains(child) by {
                    assert(self.pairs.contains((id, child)) <==> listed(named).contains(child));
                }
            },
            FetchOutcome::Failure(_) => {},
        }
    }

    /// What has been explored stays explored.
    pub proof fn lemma_explored_kept<F, X>(
        self,
        later: Progress,
        fetch: F,
        extract: X,
        lo: int,
        hi: int,
    ) where F: Fn(NodeId) -> FetchOutcome, X: Fn(NodeId, &String) -> Option<Vec<NodeId>>
        requires
            self.consistent(),
            self.leads_to(later),
            self.explored(fetch, extract, lo, hi),
            hi <= self.claims.len(),
        ensures
            later.explored(fetch, extract, lo, hi),
    {
        assert forall|k: int| lo <= k < hi && 0 <= k < later.claims.len() implies {
            &&& later.settled(#[trigger] later.claims[k])
            &&& later.explained(fetch, extract, later.claims[k])
            &&& later.discovered(later.claims[k])
        } by {
            let id = self.claims[k];
            assert(later.claims[k] == id);
            self.lemma_settled_kept(later, id);
            self.lemma_explained_kept(later, fetch, extract, id);
            self.lemma_discovered_kept(later, id);
        }
    }

    /// Claiming a fresh node and taking in its fetch is a step that the
    /// state before leads to.
    pub proof fn lemma_visit_step(
        self,
        id: NodeId,
        outcome: FetchOutcome,
        children: Seq<NodeId>,
    )
        requires
            self.consistent(),
            !self.is_claimed(id),
        ensures
            self.claim(id).in_flight(id),
            self.leads_to(self.claim(id).expand(id, outcome, children)),
            self.claim(id).expand(id, outcome, children).claims == self.claims.push(id),
            forall|child: NodeId|
                self.claim(id).expand(id, outcome, children).pairs.contains((id, child)) <==> (
                outcome is Success && children.contains(child)),
    {
        let claimed = self.claim(id);
        assert(claimed.claims[self.claims.len() as int] == id);
        let later = claimed.expand(id, outcome, children);
        let next = claimed.frontier(id, outcome, children);
        lemma_distinct(children);
        assert forall|child: NodeId| !self.pairs.contains((id, child)) by {
            if self.pairs.contains((id, child)) {
                let k = choose|k: int| 0 <= k < self.pairs.len() && self.pairs[k] == (id, child);
                assert(self.outcomes.contains_key(self.pairs[k].0));
            }
        }
        assert forall|child: NodeId|
            later.pairs.contains((id, child)) <==> (outcome is Success && children.contains(
                child,
            )) by {
            if later.pairs.contains((id, child)) {
                let k = choose|k: int| 0 <= k < later.pairs.len() && later.pairs[k] == (id, child);
                if k < self.pairs.len() {
                    assert(self.pairs[k] == (id, child));
                    assert(self.pairs.contains((id, child)));
                } else {
                    assert(next[k - self.pairs.len()] == child);
                    assert(next.contains(child));
                }
            }
            if outcome is Success && children.contains(child) {
                assert(next.contains(child));
                let j = choose|j: int| 0 <= j < next.len() && next[j] == child;
                assert(later.pairs[self.pairs.len() + j] == (id, child));
            }
        }
    }

    /// A node is claimed once: after an attempt on `id` the node is claimed,
    /// so the next attempt on it loses; no step takes a claim back; and the
    /// claims never hold a node twice.
    pub proof fn lemma_claimed_once(
        self,
        id: NodeId,
        other: NodeId,
        outcome: FetchOutcome,
        children: Seq<NodeId>,
    )
        requires
            self.consistent(),
        ensures
            self.claim(id).is_claimed(id),
            self.claim(id).claim(id) == self.claim(id),
            self.is_claimed(other) ==> self.claim(id).is_claimed(other),
            self.expand(id, outcome, children).claims == self.claims,
            self.claim(id).claims.no_duplicates(),
    {
        if !self.is_claimed(id) {
            assert(self.claim(id).claims[self.claims.len() as int] == id);
        }
        if self.is_claimed(other) {
            let i = choose|i: int| 0 <= i < self.claims.len() && self.claims[i] == other;
            assert(self.claim(id).claims[i] == other);
        }
    }

    /// Consistency is kept by every step.
    pub proof fn lemma_steps_consistent(self, id: NodeId, outcome: FetchOutcome, children: Seq<NodeId>)
        requires
            self.consistent(),
        ensures
            self.claim(id).consistent(),
            self.expand(id, outcome, children).consistent(),
    {
        let claimed = self.claim(id);
        assert forall|n: NodeId| #[trigger]
            claimed.outcomes.contains_key(n) implies claimed.claims.contains(n) by {
            self.lemma_claimed_once(id, n, outcome, children);
        }
        if self.in_flight(id) {
            let later = self.expand(id, outcome, children);
            let next = self.frontier(id, outcome, children);
            let added = edges_from(id, next);
            lemma_distinct(children);
            assert forall|k: int| 0 <= k < later.pairs.len() implies later.outcomes.contains_key(
                (#[trigger] later.pairs[k]).0,
            ) && later.outcomes[later.pairs[k].0] is Success by {
                if k < self.pairs.len() {
                    assert(self.outcomes.contains_key(self.pairs[k].0));
                }
            }
            assert forall|i: int, j: int|
                0 <= i < later.pairs.len() && 0 <= j < later.pairs.len() && i != j implies later.pairs[i]
                != later.pairs[j] by {
                if i < self.pairs.len() && j >= self.pairs.len() {
                    assert(self.outcomes.contains_key(self.pairs[i].0));
                }
                if j < self.pairs.len() && i >= self.pairs.len() {
                    assert(self.outcomes.contains_key(self.pairs[j].0));
                }
            }
        }
    }

    /// No edge leaves a node whose fetch failed.
    pub proof fn lemma_failure_has_no_edges(self, id: NodeId, child: NodeId)
        requires
            self.consistent(),
            self.outcomes.contains_key(id),
            self.outcomes[id] is Failure,
        ensures
            !self.pairs.contains((id, child)),
    {
        if self.pairs.contains((id, child)) {
            let k = choose|k: int| 0 <= k < self.pairs.len() && self.pairs[k] == (id, child);
            assert(self.outcomes[self.pairs[k].0] is Success);
        }
    }
}

/// One step of a crawl. Each step is taken as a whole: however many visits
/// run at a time, what they do to the state is some sequence of steps.
pub enum Step {
    /// An attempt to claim a node.
    Claim(NodeId),
    /// Taking in what the fetch of a node returned and which children the
    /// extraction named.
    Expand(NodeId, FetchOutcome, Seq<NodeId>),
}

impl Progress {
    /// The state after one step.
    pub open spec fn step(self, step: Step) -> Progress {
        match step {
            Step::Claim(id) => self.claim(id),
            Step::Expand(id, outcome, children) => self.expand(id, outcome, children),
        }
    }

    /// The state after the steps `steps`, in their order.
    pub open spec fn run(self, steps: Seq<Step>) -> Progress
        decreases steps.len(),
    {
        if steps.len() == 0 {
            self
        } else {
            self.run(steps.drop_last()).step(steps.last())
        }
    }

    /// In whatever order steps are taken, the state stays consistent: no
    /// node is claimed twice, no edge recorded twice, and no edge leaves a
    /// node whose fetch failed.
    pub proof fn lemma_run_consistent(self, steps: Seq<Step>)
        requires
            self.consistent(),
        ensures
            self.run(steps).consistent(),
        decreases steps.len(),
    {
        if steps.len() > 0 {
            self.lemma_run_consistent(steps.drop_last());
            let before = self.run(steps.drop_last());
            match steps.last() {
                Step::Claim(id) => {
                    before.lemma_steps_consistent(id, arbitrary(), Seq::empty());
                },
                Step::Expand(id, outcome, children) => {
                    before.lemma_steps_consistent(id, outcome, children);
                },
            }
        }
    }

    /// In whatever order steps are taken, what is recorded stays: a claimed
    /// node stays claimed, a recorded outcome stays as it is, and a recorded
    /// edge stays recorded.
    pub proof fn lemma_run_keeps(self, steps: Seq<Step>, id: NodeId, child: NodeId)
        requires
            self.consistent(),
        ensures
            self.is_claimed(id) ==> self.run(steps).is_claimed(id),
            self.outcomes.contains_key(id) ==> self.run(steps).outcomes.contains_key(id)
                && self.run(steps).outcomes[id] == self.outcomes[id],
            self.pairs.contains((id, child)) ==> self.run(steps).pairs.contains((id, child)),
        decreases steps.len(),
    {
        if steps.len() > 0 {
            self.lemma_run_keeps(steps.drop_last(), id, child);
            self.lemma_run_consistent(steps.drop_last());
            let before = self.run(steps.drop_last());
            let after = self.run(steps);
            match steps.last() {
                Step::Claim(claimed) => {
                    if before.is_claimed(id) {
                        before.lemma_claimed_once(claimed, id, arbitrary(), Seq::empty());
                    }
                },
                Step::Expand(expanded, outcome, children) => {
                    if before.pairs.contains((id, child)) {
                        let k = choose|k: int|
                            0 <= k < before.pairs.len() && before.pairs[k] == (id, child);
                        assert(after.pairs[k] == (id, child));
                    }
                },
            }
        }
    }
}

} // verus!
