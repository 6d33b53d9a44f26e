//! The immutable result of a crawl.

use crate::registry::NodeId;
use vstd::prelude::*;

verus! {

/// The edges that leave the vertex with index `source`.
pub open spec fn leaves(source: usize) -> spec_fn((usize, usize)) -> bool {
    |e: (usize, usize)| e.0 == source
}

/// A directed graph: vertices with dense indices, and edges as pairs of
/// vertex indices.
#[derive(Debug)]
pub struct Graph {
    nodes: Vec<NodeId>,
    edges: Vec<(usize, usize)>,
}

impl Graph {
    /// The vertices; the index of a vertex is its position.
    pub closed spec fn nodes(&self) -> Seq<NodeId> {
        self.nodes@
    }

    /// The edges as (source index, target index).
    pub closed spec fn edges(&self) -> Seq<(usize, usize)> {
        self.edges@
    }

    /// The invariant of a graph: no vertex and no edge occurs twice, and
    /// every edge joins two vertices of the graph.
    pub open spec fn wf(&self) -> bool {
        &&& self.nodes().no_duplicates()
        &&& self.edges().no_duplicates()
        &&& forall|k: int|
            0 <= k < self.edges().len() ==> (#[trigger] self.edges()[k]).0 < self.nodes().len()
                && self.edges()[k].1 < self.nodes().len()
    }

    /// Whether the graph has an edge from the vertex `parent` to the vertex
    /// `child`.
    pub open spec fn has_edge(&self, parent: NodeId, child: NodeId) -> bool {
        exists|k: int|
            0 <= k < self.edges().len() && (#[trigger] self.edges()[k]).0 < self.nodes().len()
                && self.edges()[k].1 < self.nodes().len() && self.nodes()[self.edges()[k].0 as int]
                == parent && self.nodes()[self.edges()[k].1 as int] == child
    }

    /// Whether an edge leads to the vertex with index `target` from a
    /// vertex with a smaller index.
    pub open spec fn found_from_earlier(&self, target: int) -> bool {
        exists|k: int|
            0 <= k < self.edges().len() && (#[trigger] self.edges()[k]).0 < target
                && self.edges()[k].1 == target
    }

    /// How many edges leave the vertex with index `source`.
    pub open spec fn out_degree_of(&self, source: usize) -> nat {
        self.edges().filter(leaves(source)).len()
    }

    /// No two edges of a graph join the same vertices in the same
    /// direction.
    pub proof fn lemma_no_duplicate_edge(&self, a: int, b: int)
        requires
            self.wf(),
            0 <= a < self.edges().len(),
            0 <= b < self.edges().len(),
            self.nodes()[self.edges()[a].0 as int] == self.nodes()[self.edges()[b].0 as int],
            self.nodes()[self.edges()[a].1 as int] == self.nodes()[self.edges()[b].1 as int],
        ensures
            a == b,
    {
        assert(self.edges()[a].0 == self.edges()[b].0);
        assert(self.edges()[a].1 == self.edges()[b].1);
    }

    /// A graph of the given vertices and edges.
    pub fn from_parts(nodes: Vec<NodeId>, edges: Vec<(usize, usize)>) -> (g: Self)
        requires
            nodes@.no_duplicates(),
            edges@.no_duplicates(),
            forall|k: int|
                0 <= k < edges@.len() ==> (#[trigger] edges@[k]).0 < nodes@.len() && edges@[k].1
                    < nodes@.len(),
        ensures
            g.wf(),
            g.nodes() == nodes@,
            g.edges() == edges@,
    {
        Graph { nodes, edges }
    }

    /// The number of vertices.
    pub fn node_count(&self) -> (n: usize)
        ensures
            n == self.nodes().len(),
    {
        self.nodes.len()
    }

    /// The number of edges.
    pub fn edge_count(&self) -> (n: usize)
        ensures
            n == self.edges().len(),
    {
        self.edges.len()
    }

    /// The vertex with index `index`, if there is one.
    pub fn node(&self, index: usize) -> (r: Option<NodeId>)
        ensures
            r == if index < self.nodes().len() {
                Some(self.nodes()[index as int])
            } else {
                None
            },
    {
        if index < self.nodes.len() {
            Some(self.nodes[index])
        } else {
            None
        }
    }

    /// The vertices as (index, identifier), in index order.
    pub fn node_list(&self) -> (r: Vec<(usize, NodeId)>)
        ensures
            r@.len() == self.nodes().len(),
            forall|i: int| 0 <= i < r@.len() ==> #[trigger] r@[i] == (i as usize, self.nodes()[i]),
    {
        let mut r: Vec<(usize, NodeId)> = Vec::new();
        let mut i: usize = 0;
        while i < self.nodes.len()
            invariant
                i <= self.nodes@.len(),
                r@.len() == i,
                forall|j: int| 0 <= j < i ==> #[trigger] r@[j] == (j as usize, self.nodes@[j]),
            decreases self.nodes@.len() - i,
        {
            r.push((i, self.nodes[i]));
            i += 1;
        }
        r
    }

    /// The edges as (source index, target index), in the order in which
    /// they were discovered.
    pub fn edge_list(&self) -> (r: Vec<(usize, usize)>)
        ensures
            r@ == self.edges(),
    {
        let mut r: Vec<(usize, usize)> = Vec::new();
        let mut k: usize = 0;
        while k < self.edges.len()
            invariant
                k <= self.edges@.len(),
                r@ == self.edges@.take(k as int),
            decreases self.edges@.len() - k,
        {
            r.push(self.edges[k]);
            assert(self.edges@.take(k + 1) == self.edges@.take(k as int).push(self.edges@[k as int]));
            k += 1;
        }
        assert(self.edges@.take(self.edges@.len() as int) == self.edges@);
        r
    }

    /// The index of the vertex `id`, if the graph has it.
    pub fn index_of(&self, id: NodeId) -> (r: Option<usize>)
        ensures
            match r {
                Some(i) => i < self.nodes().len() && self.nodes()[i as int] == id,
                None => !self.nodes().contains(id),
            },
    {
        let mut i: usize = 0;
        while i < self.nodes.len()
            invariant
                i <= self.nodes@.len(),
                forall|j: int| 0 <= j < i ==> self.nodes@[j] != id,
            decreases self.nodes@.len() - i,
        {
            if self.nodes[i] == id {
                return Some(i);
            }
            i += 1;
        }
        None
    }

    /// Whether the graph has an edge from the vertex `parent` to the vertex
    /// `child`.
    pub fn contains_edge(&self, parent: NodeId, child: NodeId) -> (b: bool)
        requires
            self.wf(),
        ensures
            b == self.has_edge(parent, child),
    {
        let source = match self.index_of(parent) {
            Some(i) => i,
            None => {
                return false;
            },
        };
        let target = match self.index_of(child) {
            Some(i) => i,
            None => {
                return false;
            },
        };
        let mut k: usize = 0;
        while k < self.edges.len()
            invariant
                self.wf(),
                k <= self.edges@.len(),
                source < self.nodes@.len(),
                target < self.nodes@.len(),
                self.nodes@[source as int] == parent,
                self.nodes@[target as int] == child,
                forall|j: int| 0 <= j < k ==> self.edges@[j] != (source, target),
            decreases self.edges@.len() - k,
        {
            let e = self.edges[k];
            if e.0 == source && e.1 == target {
                return true;
            }
            k += 1;
        }
        proof {
            if self.has_edge(parent, child) {
                let j = choose|j: int|
                    0 <= j < self.edges().len() && (#[trigger] self.edges()[j]).0
                        < self.nodes().len() && self.edges()[j].1 < self.nodes().len()
                        && self.nodes()[self.edges()[j].0 as int] == parent
                        && self.nodes()[self.edges()[j].1 as int] == child;
                assert(self.edges@[j].0 == source);
                assert(self.edges@[j].1 == target);
            }
        }
        false
    }

    /// How many edges leave the vertex with index `source`.
    pub fn out_degree(&self, source: usize) -> (n: usize)
        ensures
            n == self.out_degree_of(source),
    {
        let mut n: usize = 0;
        let mut k: usize = 0;
        while k < self.edges.len()
            invariant
                k <= self.edges@.len(),
                n <= k,
                n == self.edges@.take(k as int).filter(leaves(source)).len(),
            decreases self.edges@.len() - k,
        {
            proof {
                let before = self.edges@.take(k as int);
                let e = self.edges@[k as int];
                let after = self.edges@.take(k + 1);
                assert(after.drop_last() == before);
                assert(after.last() == e);
                reveal(Seq::filter);
            }
            if self.edges[k].0 == source {
                n += 1;
            }
            k += 1;
        }
        assert(self.edges@.take(self.edges@.len() as int) == self.edges@);
        n
    }
}

} // verus!
