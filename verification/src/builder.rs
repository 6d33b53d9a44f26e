//! The engine of a crawl: it claims nodes, takes in what their fetches and
//! extractions returned, and turns the finished registries into a graph.

use crate::graph::Graph;
use crate::progress::edges_from;
use crate::progress::id_space;
use crate::progress::lemma_ids_bounded;
use crate::progress::listed;
use crate::progress::Progress;
use crate::registry::EdgeRegistry;
use crate::registry::FetchOutcome;
use crate::registry::NodeId;
use crate::registry::VisitedRegistry;
use crate::seqs::distinct;
use crate::seqs::lemma_distinct;
use vstd::prelude::*;

verus! {

/// Builds the graph of everything that can be reached from a root.
pub struct GraphBuilder {
    visited: VisitedRegistry,
    edges: EdgeRegistry,
}

impl View for GraphBuilder {
    type V = Progress;

    closed spec fn view(&self) -> Progress {
        Progress {
            claims: self.visited.claims(),
            outcomes: self.visited.outcomes(),
            pairs: self.edges.pairs(),
        }
    }
}

impl GraphBuilder {
    /// The invariant of the builder; it entails that the state is
    /// consistent.
    pub closed spec fn wf(&self) -> bool {
        &&& self.visited.wf()
        &&& self.edges.wf()
        &&& self@.consistent()
    }

    /// A well-formed builder is in a consistent state.
    pub proof fn lemma_wf(&self)
        requires
            self.wf(),
        ensures
            self@.consistent(),
    {
    }

    /// A builder that has claimed nothing yet.
    pub fn new() -> (b: Self)
        ensures
            b.wf(),
            b@ == Progress::start(),
    {
        GraphBuilder { visited: VisitedRegistry::new(), edges: EdgeRegistry::new() }
    }

    /// Claims `id` for the caller if nobody has claimed it before. Whoever
    /// gets `true` fetches the node and hands the result to [`Self::expand`];
    /// whoever gets `false` has nothing to do.
    pub fn claim(&mut self, id: NodeId) -> (won: bool)
        requires
            old(self).wf(),
        ensures
            final(self).wf(),
            won == !old(self)@.is_claimed(id),
            final(self)@ == old(self)@.claim(id),
    {
        let won = self.visited.try_claim(id);
        proof {
            old(self).visited.lemma_wf();
            self.visited.lemma_wf();
        }
        won
    }

    /// Takes in what the fetch of `id` returned and which children the
    /// extraction named, and returns the children to visit next.
    ///
    /// The outcome is recorded and, after a success, one edge for each named
    /// child, a child named twice counting once. After a failure no edge is
    /// recorded and no child is returned. For a node that is not in flight
    /// nothing changes.
    pub fn expand(&mut self, id: NodeId, outcome: FetchOutcome, children: Option<Vec<NodeId>>) -> (next:
        Vec<NodeId>)
        requires
            old(self).wf(),
        ensures
            final(self).wf(),
            final(self)@ == old(self)@.expand(id, outcome, listed(children)),
            next@ == old(self)@.frontier(id, outcome, listed(children)),
    {
        let mut next: Vec<NodeId> = Vec::new();
        let success = outcome.is_success();
        if !self.visited.record_outcome(id, outcome) {
            return next;
        }
        proof {
            old(self).visited.lemma_wf();
            self.visited.lemma_wf();
            assert forall|k: int| 0 <= k < self@.pairs.len() implies self@.outcomes.contains_key(
                (#[trigger] self@.pairs[k]).0,
            ) && self@.outcomes[self@.pairs[k].0] is Success by {
                assert(old(self)@.outcomes.contains_key(old(self)@.pairs[k].0));
            }
            assert(edges_from(id, next@) =~= Seq::empty());
            assert(self@.pairs =~= old(self)@.pairs + edges_from(id, next@));
        }
        let list = match children {
            Some(list) => list,
            None => {
                return next;
            },
        };
        if !success {
            return next;
        }
        let ghost before = old(self)@;
        let mut i: usize = 0;
        while i < list.len()
            invariant
                i <= list@.len(),
                self.visited.wf(),
                self.visited.claims() == before.claims,
                self.visited.outcomes() == before.outcomes.insert(id, outcome),
                self.edges.wf(),
                self.edges.pairs() == before.pairs + edges_from(id, next@),
                next@ == distinct(list@.take(i as int)),
                forall|c: NodeId| !before.pairs.contains((id, c)),
                before == old(self)@,
            decreases list@.len() - i,
        {
            let child = list[i];
            let ghost seen = next@;
            let ghost pairs = self.edges.pairs();
            proof {
                assert(list@.take(i + 1).drop_last() == list@.take(i as int));
                assert(list@.take(i + 1).last() == child);
                if seen.contains(child) {
                    let j = choose|j: int| 0 <= j < seen.len() && seen[j] == child;
                    assert(pairs[before.pairs.len() + j] == (id, child));
                }
                if pairs.contains((id, child)) {
                    let k = choose|k: int| 0 <= k < pairs.len() && pairs[k] == (id, child);
                    if k < before.pairs.len() {
                        assert(before.pairs[k] == (id, child));
                        assert(before.pairs.contains((id, child)));
                    } else {
                        assert(seen[k - before.pairs.len()] == child);
                    }
                }
            }
            if self.edges.insert_if_new(id, child) {
                next.push(child);
                assert(self.edges.pairs() =~= before.pairs + edges_from(id, next@));
            }
            i += 1;
        }
        proof {
            assert(list@.take(list@.len() as int) == list@);
            self.edges.lemma_wf();
            assert forall|k: int| 0 <= k < self@.pairs.len() implies self@.outcomes.contains_key(
                (#[trigger] self@.pairs[k]).0,
            ) && self@.outcomes[self@.pairs[k].0] is Success by {
                if k < before.pairs.len() {
                    assert(before.outcomes.contains_key(before.pairs[k].0));
                }
            }
        }
        next
    }
}

/// Whether `graph` and `pages` show the state `state`: the vertices are the
/// claimed nodes in claim order, each page is the outcome of the vertex at
/// its index, and the edges are the recorded pairs, in order, by index.
pub open spec fn depicts(graph: Graph, pages: Seq<FetchOutcome>, state: Progress) -> bool {
    &&& graph.nodes() == state.claims
    &&& pages.len() == state.claims.len()
    &&& forall|i: int|
        0 <= i < state.claims.len() ==> state.outcomes.contains_key(#[trigger] state.claims[i])
            && state.outcomes[state.claims[i]] == pages[i]
    &&& graph.edges().len() == state.pairs.len()
    &&& forall|k: int|
        0 <= k < state.pairs.len() ==> {
            &&& (#[trigger] graph.edges()[k]).0 < state.claims.len()
            &&& graph.edges()[k].1 < state.claims.len()
            &&& state.claims[graph.edges()[k].0 as int] == state.pairs[k].0
            &&& state.claims[graph.edges()[k].1 as int] == state.pairs[k].1
        }
}

impl GraphBuilder {
    /// Visits `id`: claims it, fetches it, records what came back, and
    /// visits each child that the extraction named, all the way down.
    ///
    /// A node that is already claimed is left alone, so a link back to an
    /// ancestor ends the descent there. When the call returns, every node
    /// that it claimed is done: fetched once, its edges recorded, its
    /// children claimed.
    pub fn visit<F, X>(&mut self, id: NodeId, fetch: &F, extract: &X) where
        F: Fn(NodeId) -> FetchOutcome,
        X: Fn(NodeId, &String) -> Option<Vec<NodeId>>,

        requires
            old(self).wf(),
            forall|n: NodeId| call_requires(*fetch, (n,)),
            forall|n: NodeId, body: &String| call_requires(*extract, (n, body)),
        ensures
            final(self).wf(),
            old(self)@.leads_to(final(self)@),
            final(self)@.is_claimed(id),
            old(self)@.is_claimed(id) ==> final(self)@ == old(self)@,
            !old(self)@.is_claimed(id) ==> {
                &&& old(self)@.claims.len() < final(self)@.claims.len()
                &&& final(self)@.claims[old(self)@.claims.len() as int] == id
                &&& final(self)@.settled(id)
                &&& final(self)@.explained(*fetch, *extract, id)
                &&& final(self)@.explored(
                    *fetch,
                    *extract,
                    old(self)@.claims.len() as int + 1,
                    final(self)@.claims.len() as int,
                )
            },
        decreases id_space() - old(self)@.claims.len(),
    {
        let ghost start = self@;
        if !self.claim(id) {
            proof {
                start.lemma_leads_to_self();
            }
            return ;
        }
        let outcome = fetch(id);
        let children = match &outcome {
            FetchOutcome::Success(body) => extract(id, body),
            FetchOutcome::Failure(_) => None,
        };
        let ghost fetched = outcome;
        let ghost named = children;
        let next = self.expand(id, outcome, children);
        let ghost own = self@;
        proof {
            start.lemma_visit_step(id, fetched, listed(named));
            lemma_distinct(listed(named));
            self.lemma_wf();
            assert(own.claims[start.claims.len() as int] == id);
            assert(own.outcomes[id] == fetched);
            match fetched {
                FetchOutcome::Success(body) => {
                    assert(call_ensures(*extract, (id, &body), named));
                },
                FetchOutcome::Failure(_) => {},
            }
            assert(own.explained(*fetch, *extract, id));
            own.lemma_leads_to_self();
            assert forall|child: NodeId| own.pairs.contains((id, child)) <==> next@.contains(
                child,
            ) by {
                assert(distinct(listed(named)).contains(child) <==> listed(named).contains(child));
            }
        }
        let mut i: usize = 0;
        while i < next.len()
            invariant
                i <= next@.len(),
                self.wf(),
                start == old(self)@,
                start.consistent(),
                own.consistent(),
                start.leads_to(own),
                own.leads_to(self@),
                own.claims == start.claims.push(id),
                own.explained(*fetch, *extract, id),
                self@.explored(*fetch, *extract, own.claims.len() as int, self@.claims.len() as int),
                forall|m: int| 0 <= m < i ==> self@.claims.contains(#[trigger] next@[m]),
                forall|child: NodeId| own.pairs.contains((id, child)) <==> next@.contains(child),
                forall|n: NodeId| call_requires(*fetch, (n,)),
                forall|n: NodeId, body: &String| call_requires(*extract, (n, body)),
            decreases next@.len() - i,
        {
            let ghost pre = self@;
            let child = next[i];
            proof {
                self.lemma_wf();
                lemma_ids_bounded(pre.claims);
            }
            self.visit(child, fetch, extract);
            proof {
                let post = self@;
                self.lemma_wf();
                own.lemma_leads_to_chain(pre, post);
                pre.lemma_explored_kept(
                    post,
                    *fetch,
                    *extract,
                    own.claims.len() as int,
                    pre.claims.len() as int,
                );
                if !pre.is_claimed(child) {
                    assert(next@.contains(child));
                    assert(own.claims.contains(id));
                    own.lemma_out_edges_fixed(post, id, child);
                    assert(post.claims[start.claims.len() as int] == id);
                    assert(post.pairs.contains(
                        (post.claims[start.claims.len() as int], post.claims[pre.claims.len() as int]),
                    ));
                    assert(post.discovered(child));
                }
                assert forall|m: int| 0 <= m < i + 1 implies post.claims.contains(
                    #[trigger] next@[m],
                ) by {
                    if m < i {
                        pre.lemma_claim_kept(post, next@[m]);
                    }
                }
            }
            i += 1;
        }
        proof {
            let end = self@;
            start.lemma_leads_to_chain(own, end);
            own.lemma_explained_kept(end, *fetch, *extract, id);
            assert(own.claims.contains(id));
            own.lemma_claim_kept(end, id);
            assert forall|child: NodeId| #[trigger]
                end.pairs.contains((id, child)) implies end.claims.contains(child) by {
                own.lemma_out_edges_fixed(end, id, child);
                assert(next@.contains(child));
            }
        }
    }

    /// Whether the crawl has come to rest: every claimed node has its
    /// outcome, and every child that an edge names has been claimed.
    pub fn is_quiescent(&self) -> (b: bool)
        requires
            self.wf(),
        ensures
            b == self@.quiescent(),
    {
        if !self.visited.is_settled() {
            proof {
                let id = choose|id: NodeId|
                    self.visited.is_claimed(id) && !self.visited.outcomes().contains_key(id);
                assert(self@.claims.contains(id) && !self@.settled(id));
            }
            return false;
        }
        let mut k: usize = 0;
        while k < self.edges.len()
            invariant
                self.wf(),
                k <= self@.pairs.len(),
                forall|j: int| 0 <= j < k ==> self@.claims.contains((#[trigger] self@.pairs[j]).1),
            decreases self@.pairs.len() - k,
        {
            if let Some((parent, child)) = self.edges.pair(k) {
                if self.visited.index_of(child).is_none() {
                    proof {
                        assert(self@.outcomes.contains_key(self@.pairs[k as int].0));
                        assert(self@.claims.contains(parent));
                        assert(self@.pairs.contains((parent, child)));
                        assert(!self@.settled(parent));
                    }
                    return false;
                }
            }
            k += 1;
        }
        proof {
            assert forall|id: NodeId| #[trigger] self@.claims.contains(id) implies self@.settled(
                id,
            ) by {
                assert(self.visited.is_claimed(id));
                assert forall|child: NodeId| #[trigger]
                    self@.pairs.contains((id, child)) implies self@.claims.contains(child) by {
                    let j = choose|j: int|
                        0 <= j < self@.pairs.len() && self@.pairs[j] == (id, child);
                    assert(self@.claims.contains(self@.pairs[j].1));
                }
            }
        }
        true
    }

    /// Turns the registries of a crawl that has come to rest into the
    /// graph, and beside it the outcome of each vertex.
    ///
    /// There are as many vertices as nodes were claimed, and as many edges
    /// as pairs were recorded.
    pub fn materialize(self) -> (r: (Graph, Vec<FetchOutcome>))
        requires
            self.wf(),
            self@.quiescent(),
        ensures
            r.0.wf(),
            depicts(r.0, r.1@, self@),
    {
        let ghost state = self@;
        let GraphBuilder { visited, edges } = self;
        let mut links: Vec<(usize, usize)> = Vec::new();
        let mut k: usize = 0;
        while k < edges.len()
            invariant
                visited.wf(),
                edges.wf(),
                state.consistent(),
                state.quiescent(),
                state.claims == visited.claims(),
                state.pairs == edges.pairs(),
                k <= state.pairs.len(),
                links@.len() == k,
                forall|j: int|
                    0 <= j < k ==> {
                        &&& (#[trigger] links@[j]).0 < state.claims.len()
                        &&& links@[j].1 < state.claims.len()
                        &&& state.claims[links@[j].0 as int] == state.pairs[j].0
                        &&& state.claims[links@[j].1 as int] == state.pairs[j].1
                    },
            decreases state.pairs.len() - k,
        {
            if let Some((parent, child)) = edges.pair(k) {
                proof {
                    assert(state.outcomes.contains_key(state.pairs[k as int].0));
                    assert(state.claims.contains(parent));
                    assert(state.settled(parent));
                    assert(state.pairs.contains((parent, child)));
                    assert(state.claims.contains(child));
                }
                if let Some(source) = visited.index_of(parent) {
                    if let Some(target) = visited.index_of(child) {
                        links.push((source, target));
                    }
                }
            }
            k += 1;
        }
        proof {
            assert forall|i: int, j: int|
                0 <= i < links@.len() && 0 <= j < links@.len() && i != j implies links@[i]
                != links@[j] by {
                if links@[i] == links@[j] {
                    assert(state.pairs[i] == state.pairs[j]);
                }
            }
        }
        let (nodes, pages) = visited.drain();
        (Graph::from_parts(nodes, links), pages)
    }

    /// Crawls from `root`: builds the graph of everything that can be
    /// reached from it through the children that `extract` names in what
    /// `fetch` returns, fetching each node once.
    ///
    /// The root is the first vertex, and every other vertex was found
    /// through an edge from a vertex before it. Each page is what `fetch`
    /// returned for its vertex. No edge leaves a vertex whose fetch failed;
    /// the edges that leave a vertex whose fetch succeeded lead to exactly
    /// the children named for its content, all of which are vertices.
    pub fn crawl<F, X>(root: NodeId, fetch: F, extract: X) -> (r: (Graph, Vec<FetchOutcome>)) where
        F: Fn(NodeId) -> FetchOutcome,
        X: Fn(NodeId, &String) -> Option<Vec<NodeId>>,

        requires
            forall|n: NodeId| call_requires(fetch, (n,)),
            forall|n: NodeId, body: &String| call_requires(extract, (n, body)),
        ensures
            r.0.wf(),
            r.1@.len() == r.0.nodes().len(),
            r.0.nodes().len() >= 1,
            r.0.nodes()[0] == root,
            forall|i: int|
                0 <= i < r.0.nodes().len() ==> call_ensures(
                    fetch,
                    (#[trigger] r.0.nodes()[i],),
                    r.1@[i],
                ),
            forall|k: int|
                0 <= k < r.0.edges().len() ==> r.1@[(#[trigger] r.0.edges()[k]).0 as int] is Success,
            forall|i: int|
                0 <= i < r.0.nodes().len() ==> (match #[trigger] r.1@[i] {
                    FetchOutcome::Success(body) => exists|named: Option<Vec<NodeId>>|
                        {
                            &&& #[trigger] call_ensures(extract, (r.0.nodes()[i], &body), named)
                            &&& forall|child: NodeId|
                                r.0.has_edge(r.0.nodes()[i], child) <==> listed(named).contains(
                                    child,
                                )
                        },
                    FetchOutcome::Failure(_) => true,
                }),
            forall|j: int| 1 <= j < r.0.nodes().len() ==> #[trigger] r.0.found_from_earlier(j),
    {
        let mut builder = GraphBuilder::new();
        builder.visit(root, &fetch, &extract);
        let ghost state = builder@;
        proof {
            builder.lemma_wf();
            assert forall|id: NodeId| #[trigger] state.claims.contains(id) implies state.settled(
                id,
            ) by {
                let i = choose|i: int| 0 <= i < state.claims.len() && state.claims[i] == id;
                if i > 0 {
                    assert(state.settled(state.claims[i]));
                }
            }
        }
        let r = builder.materialize();
        proof {
            lemma_depicted_crawl(r.0, r.1@, state, root, fetch, extract);
        }
        r
    }
}

/// What a graph shows of a crawl from `root` that has come to rest.
proof fn lemma_depicted_crawl<F, X>(
    graph: Graph,
    pages: Seq<FetchOutcome>,
    state: Progress,
    root: NodeId,
    fetch: F,
    extract: X,
) where F: Fn(NodeId) -> FetchOutcome, X: Fn(NodeId, &String) -> Option<Vec<NodeId>>
    requires
        graph.wf(),
        depicts(graph, pages, state),
        state.consistent(),
        state.claims.len() >= 1,
        state.claims[0] == root,
        state.settled(root),
        state.explained(fetch, extract, root),
        state.explored(fetch, extract, 1, state.claims.len() as int),
    ensures
        forall|i: int|
            0 <= i < graph.nodes().len() ==> call_ensures(fetch, (#[trigger] graph.nodes()[i],), pages[i]),
        forall|k: int|
            0 <= k < graph.edges().len() ==> pages[(#[trigger] graph.edges()[k]).0 as int] is Success,
        forall|i: int|
            0 <= i < graph.nodes().len() ==> (match #[trigger] pages[i] {
                FetchOutcome::Success(body) => exists|named: Option<Vec<NodeId>>|
                    {
                        &&& #[trigger] call_ensures(extract, (graph.nodes()[i], &body), named)
                        &&& forall|child: NodeId|
                            graph.has_edge(graph.nodes()[i], child) <==> listed(named).contains(child)
                    },
                FetchOutcome::Failure(_) => true,
            }),
        forall|j: int| 1 <= j < graph.nodes().len() ==> #[trigger] graph.found_from_earlier(j),
{
    let nodes = graph.nodes();
    let edges = graph.edges();
    assert forall|i: int| 0 <= i < nodes.len() implies state.explained(
        fetch,
        extract,
        #[trigger] nodes[i],
    ) by {
        if i > 0 {
            assert(state.settled(state.claims[i]));
        }
    }
    assert forall|i: int, child: NodeId| 0 <= i < nodes.len() implies (graph.has_edge(
        #[trigger] nodes[i],
        child,
    ) <==> #[trigger] state.pairs.contains((nodes[i], child))) by {
        lemma_depicted_edge(graph, pages, state, i, child);
    }
    assert forall|i: int| 0 <= i < nodes.len() implies call_ensures(
        fetch,
        (#[trigger] nodes[i],),
        pages[i],
    ) by {
        assert(state.explained(fetch, extract, nodes[i]));
    }
    assert forall|k: int| 0 <= k < edges.len() implies pages[(#[trigger] edges[k]).0 as int]
        is Success by {
        assert(state.outcomes[state.pairs[k].0] is Success);
        assert(state.claims[edges[k].0 as int] == state.pairs[k].0);
    }
    assert forall|i: int| 0 <= i < nodes.len() implies (match #[trigger] pages[i] {
        FetchOutcome::Success(body) => exists|named: Option<Vec<NodeId>>|
            {
                &&& #[trigger] call_ensures(extract, (nodes[i], &body), named)
                &&& forall|child: NodeId|
                    graph.has_edge(nodes[i], child) <==> listed(named).contains(child)
            },
        FetchOutcome::Failure(_) => true,
    }) by {
        assert(state.explained(fetch, extract, nodes[i]));
        assert(state.outcomes[nodes[i]] == pages[i]);
        match pages[i] {
            FetchOutcome::Success(body) => {
                let named = choose|named: Option<Vec<NodeId>>|
                    {
                        &&& #[trigger] call_ensures(extract, (nodes[i], &body), named)
                        &&& forall|child: NodeId|
                            state.pairs.contains((nodes[i], child)) <==> listed(named).contains(
                                child,
                            )
                    };
                assert(call_ensures(extract, (nodes[i], &body), named));
                assert forall|child: NodeId|
                    graph.has_edge(nodes[i], child) <==> listed(named).contains(child) by {
                    assert(graph.has_edge(nodes[i], child) <==> state.pairs.contains(
                        (nodes[i], child),
                    ));
                }
            },
            FetchOutcome::Failure(_) => {},
        }
    }
    assert forall|j: int| 1 <= j < nodes.len() implies #[trigger] graph.found_from_earlier(j) by {
        assert(state.discovered(state.claims[j]));
        let (a, b) = choose|a: int, b: int|
            0 <= a < b < state.claims.len() && state.claims[b] == state.claims[j]
                && #[trigger] state.pairs.contains((state.claims[a], state.claims[b]));
        assert(b == j);
        let k = choose|k: int|
            0 <= k < state.pairs.len() && state.pairs[k] == (state.claims[a], state.claims[b]);
        assert(edges[k].0 == a);
        assert(edges[k].1 == j);
    }
}

/// A graph has an edge between two nodes exactly when the pair was
/// recorded.
proof fn lemma_depicted_edge(
    graph: Graph,
    pages: Seq<FetchOutcome>,
    state: Progress,
    i: int,
    child: NodeId,
)
    requires
        depicts(graph, pages, state),
        state.consistent(),
        0 <= i < state.claims.len(),
    ensures
        graph.has_edge(state.claims[i], child) <==> state.pairs.contains((state.claims[i], child)),
{
    let parent = state.claims[i];
    if graph.has_edge(parent, child) {
        let k = choose|k: int|
            0 <= k < graph.edges().len() && (#[trigger] graph.edges()[k]).0 < graph.nodes().len()
                && graph.edges()[k].1 < graph.nodes().len() && graph.nodes()[graph.edges()[k].0 as int]
                == parent && graph.nodes()[graph.edges()[k].1 as int] == child;
        assert(state.pairs[k] == (parent, child));
    }
    if state.pairs.contains((parent, child)) {
        let k = choose|k: int| 0 <= k < state.pairs.len() && state.pairs[k] == (parent, child);
        assert(graph.edges()[k].0 < graph.nodes().len());
    }
}

/// A graph has one vertex for each node that was claimed: as many vertices
/// as distinct nodes were claimed, and no others.
pub proof fn lemma_one_vertex_per_claim(graph: Graph, pages: Seq<FetchOutcome>, state: Progress)
    requires
        state.consistent(),
        depicts(graph, pages, state),
    ensures
        graph.nodes().len() == state.claims.to_set().len(),
        forall|id: NodeId| graph.nodes().contains(id) <==> state.is_claimed(id),
{
    state.claims.unique_seq_to_set();
}

/// A graph has no edge from a vertex whose fetch failed, and no two edges
/// for one recorded pair.
pub proof fn lemma_depicted_edges(
    graph: Graph,
    pages: Seq<FetchOutcome>,
    state: Progress,
    parent: NodeId,
    child: NodeId,
)
    requires
        state.consistent(),
        depicts(graph, pages, state),
        state.is_claimed(parent),
    ensures
        graph.has_edge(parent, child) <==> state.pairs.contains((parent, child)),
        state.outcomes[parent] is Failure ==> !graph.has_edge(parent, child),
{
    let i = choose|i: int| 0 <= i < state.claims.len() && state.claims[i] == parent;
    lemma_depicted_edge(graph, pages, state, i, child);
    assert(state.outcomes.contains_key(state.claims[i]));
    if state.outcomes[parent] is Failure {
        state.lemma_failure_has_no_edges(parent, child);
    }
}

impl Default for GraphBuilder {
    fn default() -> (b: Self)
        ensures
            b.wf(),
            b@ == Progress::start(),
    {
        GraphBuilder::new()
    }
}

} // verus!
