//! The graph of the structs, enums and unions of a crate: an edge leads
//! from a type to each type that its fields mention.

use crate::model::text;
use crate::model::Crate;
use crate::model::CrateView;
use crate::model::Id;
use crate::model::PathText;
use crate::seqs::count_up;
use crate::seqs::distinct;
use crate::seqs::endpoints;
use crate::seqs::lemma_distinct;
use crate::seqs::lemma_distinct_images;
use crate::seqs::lemma_distinct_push;
use crate::seqs::lemma_endpoints_contains;
use crate::seqs::lemma_endpoints_push;
use crate::structy::children;
use crate::structy::gather;
use crate::structy::intern;
use crate::structy::lemma_gather_contains;
use crate::structy::lemma_gather_step;
use crate::structy::texts_of;
use crate::structy::StructyPath;
use petgraph::graphmap::DiGraphMap;
use petgraph::graphmap::GraphMap;
use petgraph::Directed;
use std::hash::BuildHasher;
use vstd::prelude::*;

verus! {

/// `petgraph::Directed`: the marker of a graph whose edges have a
/// direction. It has no values.
#[verifier::external_type_specification]
#[verifier::external_body]
pub struct ExDirected(Directed);

/// `petgraph::graphmap::GraphMap`: a graph that is keyed by its nodes.
/// Nothing inside it is visible here; what it holds goes by the names
/// [`graph_nodes`] and [`graph_edges`].
#[verifier::external_type_specification]
#[verifier::external_body]
#[verifier::reject_recursive_types(N)]
#[verifier::reject_recursive_types(E)]
#[verifier::reject_recursive_types(Ty)]
#[verifier::reject_recursive_types(S)]
pub struct ExGraphMap<N, E, Ty, S: BuildHasher>(GraphMap<N, E, Ty, S>);

/// The nodes that a graph holds, in the order in which it hands them out:
/// the order in which they came in.
pub uninterp spec fn graph_nodes(graph: DiGraphMap<usize, ()>) -> Seq<usize>;

/// The edges that a graph holds as (source, target), in the order in which
/// it hands them out: the order in which they came in.
pub uninterp spec fn graph_edges(graph: DiGraphMap<usize, ()>) -> Seq<(usize, usize)>;

/// Calls `GraphMap::from_edges` on the pairs of `links`, each with the
/// unit weight.
///
/// The graph takes the pairs in order. A pair that it already holds changes
/// nothing. A new pair becomes its last edge, and each end of the pair that
/// it does not hold yet becomes its last node, the source before the
/// target. So its edges are the first occurrences of the pairs, and its
/// nodes the first occurrences of their ends.
#[verifier::external_body]
fn graph_from_edges(links: &Vec<(usize, usize)>) -> (graph: DiGraphMap<usize, ()>)
    ensures
        graph_edges(graph) == distinct(links@),
        graph_nodes(graph) == distinct(endpoints(links@)),
{
    DiGraphMap::from_edges(links.iter().copied())
}

/// Calls `GraphMap::add_node` with `node`.
///
/// A node that the graph holds changes nothing; a new node becomes its last
/// node. The edges stay as they are.
#[verifier::external_body]
fn graph_add_node(graph: &mut DiGraphMap<usize, ()>, node: usize)
    ensures
        graph_edges(*final(graph)) == graph_edges(*old(graph)),
        graph_nodes(*final(graph)) == if graph_nodes(*old(graph)).contains(node) {
            graph_nodes(*old(graph))
        } else {
            graph_nodes(*old(graph)).push(node)
        },
{
    graph.add_node(node);
}

/// The text of both ends of each pair of `pairs`.
pub open spec fn pair_texts<'a>(pairs: Seq<(StructyPath<'a>, StructyPath<'a>)>) -> Seq<
    (PathText, PathText),
> {
    Seq::new(pairs.len(), |i: int| (pairs[i].0.text(), pairs[i].1.text()))
}

/// Each pair of `pairs` by the positions of its ends among `nodes`.
pub open spec fn numbered(nodes: Seq<PathText>, pairs: Seq<(PathText, PathText)>) -> Seq<
    (usize, usize),
> {
    Seq::new(
        pairs.len(),
        |i: int| (nodes.index_of(pairs[i].0) as usize, nodes.index_of(pairs[i].1) as usize),
    )
}

impl CrateView {
    /// The paths of the structs, enums and unions among the items `ids`, in
    /// their order.
    pub open spec fn parents_among(self, ids: Seq<Id>) -> Seq<PathText>
        decreases ids.len(),
    {
        if ids.len() == 0 {
            Seq::empty()
        } else {
            let head = self.parents_among(ids.drop_last());
            match self.parent(ids.last()) {
                Some(path) => head.push(path),
                None => head,
            }
        }
    }

    /// The paths of the structs, enums and unions that have a summary, in
    /// the order of the summaries.
    pub open spec fn parents(self) -> Seq<PathText> {
        self.parents_among(self.order)
    }

    /// For an item with a summary, the edges that leave it: from a struct,
    /// enum or union one edge to each of its children; from any other item,
    /// none.
    pub open spec fn outgoing(self) -> spec_fn(Id) -> Option<Seq<(PathText, PathText)>> {
        |id: Id|
            match self.parent(id) {
                Some(parent) => match self.children(id) {
                    Some(children) => Some(Seq::new(children.len(), |i: int| (parent, children[i]))),
                    None => None,
                },
                None => Some(Seq::empty()),
            }
    }

    /// The edges of the type graph as (parent, child), item by item in the
    /// order of the summaries: nothing if something that a field mentions
    /// cannot be found.
    pub open spec fn edges(self) -> Option<Seq<(PathText, PathText)>> {
        gather(self.order, self.outgoing())
    }
}

/// The paths of the structs, enums and unions that have a summary, in the
/// order of the summaries.
pub fn type_parents<'a>(krate: &'a Crate) -> (parents: Vec<StructyPath<'a>>)
    requires
        krate.wf(),
    ensures
        texts_of(parents@) == krate@.parents(),
{
    let mut parents: Vec<StructyPath<'a>> = Vec::new();
    let mut k: usize = 0;
    proof {
        assert(texts_of(parents@) =~= Seq::<PathText>::empty());
        assert(krate@.order.take(0) =~= Seq::<Id>::empty());
    }
    while k < krate.path_count()
        invariant
            krate.wf(),
            k <= krate@.order.len(),
            texts_of(parents@) == krate@.parents_among(krate@.order.take(k as int)),
        decreases krate@.order.len() - k,
    {
        let ghost before = texts_of(parents@);
        proof {
            assert(krate@.order.take(k + 1).drop_last() == krate@.order.take(k as int));
            assert(krate@.order.take(k + 1).last() == krate@.order[k as int]);
        }
        if let Some(id) = krate.path_id(k) {
            if let Some(summary) = krate.summary(id) {
                if summary.kind.is_structy() {
                    parents.push(StructyPath(&summary.path));
                    assert(texts_of(parents@) =~= before.push(text(summary.path)));
                }
            }
        }
        k += 1;
    }
    assert(krate@.order.take(krate@.order.len() as int) == krate@.order);
    parents
}

/// The edges of the type graph as (parent, child), item by item in the
/// order of the summaries: nothing if something that a field mentions
/// cannot be found.
pub fn type_edges<'a>(krate: &'a Crate) -> (r: Option<Vec<(StructyPath<'a>, StructyPath<'a>)>>)
    requires
        krate.wf(),
    ensures
        match r {
            Some(edges) => krate@.edges() == Some(pair_texts(edges@)),
            None => krate@.edges() is None,
        },
{
    let ghost each = krate@.outgoing();
    let mut edges: Vec<(StructyPath<'a>, StructyPath<'a>)> = Vec::new();
    let mut k: usize = 0;
    assert(pair_texts(edges@) =~= Seq::<(PathText, PathText)>::empty());
    while k < krate.path_count()
        invariant
            krate.wf(),
            k <= krate@.order.len(),
            each == krate@.outgoing(),
            gather(krate@.order.take(k as int), each) == Some(pair_texts(edges@)),
        decreases krate@.order.len() - k,
    {
        proof {
            krate.lemma_wf();
            lemma_gather_step(krate@.order, each, k as int);
        }
        let ghost before = pair_texts(edges@);
        let ghost now = krate@.order[k as int];
        if let Some(id) = krate.path_id(k) {
            assert(krate@.order.contains(id));
            if let Some(summary) = krate.summary(id) {
                if summary.kind.is_structy() {
                    let found = match children(krate, id) {
                        Some(found) => found,
                        None => {
                            assert(each(now) is None);
                            return None;
                        },
                    };
                    let parent = StructyPath(&summary.path);
                    let ghost added = each(now)->Some_0;
                    let mut i: usize = 0;
                    proof {
                        assert(krate@.children(id) == Some(texts_of(found@)));
                        assert(each(now) is Some);
                        assert(added.len() == found@.len());
                        assert(pair_texts(edges@) =~= before + added.take(0));
                    }
                    while i < found.len()
                        invariant
                            i <= found@.len(),
                            added.len() == found@.len(),
                            forall|j: int|
                                0 <= j < added.len() ==> added[j] == (
                                    parent.text(),
                                    found@[j].text(),
                                ),
                            pair_texts(edges@) == before + added.take(i as int),
                        decreases found@.len() - i,
                    {
                        let ghost so_far = pair_texts(edges@);
                        edges.push((parent, found[i]));
                        proof {
                            assert(pair_texts(edges@) =~= so_far.push(
                                (parent.text(), found@[i as int].text()),
                            ));
                            assert(added.take(i + 1) =~= added.take(i as int).push(
                                added[i as int],
                            ));
                            assert(pair_texts(edges@) =~= before + added.take(i + 1));
                        }
                        i += 1;
                    }
                    assert(added.take(found@.len() as int) == added);
                } else {
                    assert(each(now) == Some(Seq::<(PathText, PathText)>::empty()));
                    assert(pair_texts(edges@) =~= before + Seq::<(PathText, PathText)>::empty());
                }
            }
        }
        k += 1;
    }
    assert(krate@.order.take(krate@.order.len() as int) == krate@.order);
    Some(edges)
}

/// A type graph: the paths that are its vertices, and the graph over their
/// positions.
pub struct TypeGraph<'a> {
    /// The paths of the graph; the node `i` of the graph stands for the
    /// path at position `i`.
    pub nodes: Vec<StructyPath<'a>>,
    /// The graph. Its nodes are positions in `nodes`.
    pub graph: DiGraphMap<usize, ()>,
}

impl<'a> TypeGraph<'a> {
    /// Whether this is the graph of the parents `parents` and the edges
    /// `edges`. Its paths are the ends of the edges and the parents, each
    /// once: first the ends of the edges in the order in which they first
    /// occur, then the parents that no edge touches, in their order. The
    /// graph has a node for each path, in that order, and the edges by the
    /// positions of their ends, each once, in the order in which they first
    /// occur.
    pub open spec fn depicts(self, parents: Seq<PathText>, edges: Seq<(PathText, PathText)>) -> bool {
        &&& texts_of(self.nodes@) == distinct(endpoints(edges) + parents)
        &&& graph_nodes(self.graph) == count_up(self.nodes@.len())
        &&& graph_edges(self.graph) == distinct(numbered(texts_of(self.nodes@), edges))
    }
}

/// The type graph of the parents `parents` and the edges `edges`: every
/// parent is a vertex, whether an edge touches it or not.
pub fn graph_of<'a>(
    parents: &Vec<StructyPath<'a>>,
    edges: &Vec<(StructyPath<'a>, StructyPath<'a>)>,
) -> (r: TypeGraph<'a>)
    ensures
        r.depicts(texts_of(parents@), pair_texts(edges@)),
{
    let ghost wanted = pair_texts(edges@);
    let ghost others = texts_of(parents@);
    let mut nodes: Vec<StructyPath<'a>> = Vec::new();
    let mut links: Vec<(usize, usize)> = Vec::new();
    let mut k: usize = 0;
    proof {
        assert(texts_of(nodes@) =~= Seq::<PathText>::empty());
        assert(wanted.take(0) =~= Seq::<(PathText, PathText)>::empty());
        assert(count_up(0) =~= Seq::<usize>::empty());
    }
    while k < edges.len()
        invariant
            k <= edges@.len(),
            wanted == pair_texts(edges@),
            texts_of(nodes@) == distinct(endpoints(wanted.take(k as int))),
            links@.len() == k,
            forall|j: int|
                0 <= j < k ==> {
                    &&& (#[trigger] links@[j]).0 < nodes@.len()
                    &&& links@[j].1 < nodes@.len()
                    &&& texts_of(nodes@)[links@[j].0 as int] == wanted[j].0
                    &&& texts_of(nodes@)[links@[j].1 as int] == wanted[j].1
                },
            distinct(endpoints(links@)) == count_up(nodes@.len()),
        decreases edges@.len() - k,
    {
        let ghost texts = texts_of(nodes@);
        let ghost ends = endpoints(wanted.take(k as int));
        let ghost old_links = links@;
        let ghost n = nodes@.len();
        proof {
            lemma_distinct(ends);
            assert(wanted.take(k + 1) == wanted.take(k as int).push(wanted[k as int]));
            lemma_endpoints_push(wanted.take(k as int), wanted[k as int]);
            lemma_distinct_push(ends, wanted[k as int].0);
            lemma_distinct_push(ends.push(wanted[k as int].0), wanted[k as int].1);
        }
        let (parent, child) = edges[k];
        let a = intern(&mut nodes, parent);
        let ghost mid = texts_of(nodes@);
        let ghost m = nodes@.len();
        let b = intern(&mut nodes, child);
        links.push((a, b));
        proof {
            let after = texts_of(nodes@);
            assert forall|j: int| 0 <= j < mid.len() implies mid[j] == after[j] by {}
            assert forall|j: int| 0 <= j < texts.len() implies texts[j] == after[j] by {
                assert(texts[j] == mid[j]);
            }
            assert(links@ == old_links.push((a, b)));
            lemma_endpoints_push(old_links, (a, b));
            lemma_distinct_push(endpoints(old_links), a);
            lemma_distinct_push(endpoints(old_links).push(a), b);
            lemma_count_up(n, a);
            lemma_count_up(m, b);
            if a >= n {
                assert(a == n);
                assert(count_up(n).push(a) =~= count_up(m));
            }
            assert(distinct(endpoints(old_links).push(a)) == count_up(m));
            assert(mid.len() == m);
            assert(after.len() == nodes@.len());
            if b >= m {
                assert(!mid.contains(child.text()));
                assert(after == mid.push(child.text()));
                assert(b == m);
                assert(count_up(m).push(b) =~= count_up(nodes@.len()));
            }
        }
        k += 1;
    }
    let mut graph = graph_from_edges(&links);
    let ghost linked = graph_edges(graph);
    let mut p: usize = 0;
    proof {
        assert(wanted.take(edges@.len() as int) == wanted);
        assert(others.take(0) =~= Seq::<PathText>::empty());
        assert(endpoints(wanted) + others.take(0) =~= endpoints(wanted));
    }
    while p < parents.len()
        invariant
            p <= parents@.len(),
            others == texts_of(parents@),
            links@.len() == wanted.len(),
            texts_of(nodes@) == distinct(endpoints(wanted) + others.take(p as int)),
            forall|j: int|
                0 <= j < links@.len() ==> {
                    &&& (#[trigger] links@[j]).0 < nodes@.len()
                    &&& links@[j].1 < nodes@.len()
                    &&& texts_of(nodes@)[links@[j].0 as int] == wanted[j].0
                    &&& texts_of(nodes@)[links@[j].1 as int] == wanted[j].1
                },
            graph_nodes(graph) == count_up(nodes@.len()),
            graph_edges(graph) == linked,
        decreases parents@.len() - p,
    {
        let ghost texts = texts_of(nodes@);
        let ghost n = nodes@.len();
        proof {
            let seen = endpoints(wanted) + others.take(p as int);
            lemma_distinct(seen);
            assert(endpoints(wanted) + others.take(p + 1) =~= seen.push(others[p as int]));
            lemma_distinct_push(seen, others[p as int]);
        }
        let at = intern(&mut nodes, parents[p]);
        graph_add_node(&mut graph, at);
        proof {
            let after = texts_of(nodes@);
            assert forall|j: int| 0 <= j < texts.len() implies texts[j] == after[j] by {}
            lemma_count_up(n, at);
            assert(texts.len() == n);
            assert(after.len() == nodes@.len());
            if at >= n {
                assert(!texts.contains(parents@[p as int].text()));
                assert(after == texts.push(parents@[p as int].text()));
                assert(at == n);
                assert(count_up(n).push(at) =~= count_up(nodes@.len()));
            }
        }
        p += 1;
    }
    proof {
        assert(others.take(parents@.len() as int) == others);
        let texts = texts_of(nodes@);
        lemma_distinct(endpoints(wanted) + others);
        assert forall|j: int| 0 <= j < links@.len() implies links@[j] == numbered(
            texts,
            wanted,
        )[j] by {
            assert(texts[links@[j].0 as int] == wanted[j].0);
            assert(texts[links@[j].1 as int] == wanted[j].1);
            assert(texts.contains(wanted[j].0));
            assert(texts.contains(wanted[j].1));
        }
        assert(links@ =~= numbered(texts, wanted));
    }
    TypeGraph { nodes, graph }
}

/// A number is among the numbers from 0 up to `n` exactly if it is less
/// than `n`.
proof fn lemma_count_up(n: nat, x: usize)
    ensures
        count_up(n).contains(x) <==> x < n,
{
    if x < n {
        assert(count_up(n)[x as int] == x);
    }
}

/// The type graph of a crate. Its vertices are the structs, enums and
/// unions that have a summary, and what their fields mention; an edge leads
/// from each of them to each of its children. Nothing if something that a
/// field mentions cannot be found.
pub fn type_graph<'a>(krate: &'a Crate) -> (r: Option<TypeGraph<'a>>)
    requires
        krate.wf(),
    ensures
        match r {
            Some(graph) => krate@.edges() is Some && graph.depicts(
                krate@.parents(),
                krate@.edges()->Some_0,
            ),
            None => krate@.edges() is None,
        },
{
    match type_edges(krate) {
        Some(edges) => Some(graph_of(&type_parents(krate), &edges)),
        None => None,
    }
}

/// The type graph of a crate. Its vertices are the structs, enums and
/// unions that have a summary, and what their fields mention; an edge leads
/// from each of them to each of its children.
pub fn build_type_graph<'a>(krate: &'a Crate) -> (r: TypeGraph<'a>)
    requires
        krate.wf(),
        krate@.edges() is Some,
    ensures
        r.depicts(krate@.parents(), krate@.edges()->Some_0),
{
    type_graph(krate).unwrap()
}

impl CrateView {
    /// Whether the item `id` is a struct, enum or union at the path
    /// `parent` that has `child` among its children.
    pub open spec fn has_child(self, id: Id, parent: PathText, child: PathText) -> bool {
        &&& self.parent(id) == Some(parent)
        &&& self.children(id) is Some
        &&& self.children(id)->Some_0.contains(child)
    }

    /// An edge leads from `parent` to `child` exactly if a struct, enum or
    /// union with a summary has the path `parent` and has `child` among its
    /// children.
    pub proof fn lemma_edge_of_item(self, parent: PathText, child: PathText)
        requires
            self.edges() is Some,
        ensures
            self.edges()->Some_0.contains((parent, child)) <==> exists|k: int|
                0 <= k < self.order.len() && self.has_child(#[trigger] self.order[k], parent, child),
    {
        let each = self.outgoing();
        lemma_gather_contains(self.order, each, (parent, child));
        assert forall|k: int| 0 <= k < self.order.len() implies (each(
            self.order[k],
        )->Some_0.contains((parent, child)) <==> self.has_child(
            #[trigger] self.order[k],
            parent,
            child,
        )) by {
            let id = self.order[k];
            assert(each(self.order[k]) is Some);
            let out = each(id)->Some_0;
            if out.contains((parent, child)) {
                let i = choose|i: int| 0 <= i < out.len() && out[i] == (parent, child);
                assert(self.children(id)->Some_0[i] == child);
            }
            if self.has_child(id, parent, child) {
                let children = self.children(id)->Some_0;
                let i = choose|i: int| 0 <= i < children.len() && children[i] == child;
                assert(out[i] == (parent, child));
            }
        }
        if self.edges()->Some_0.contains((parent, child)) {
            let k = choose|k: int|
                0 <= k < self.order.len() && (#[trigger] each(self.order[k]))->Some_0.contains(
                    (parent, child),
                );
            assert(self.has_child(self.order[k], parent, child));
        }
        if exists|k: int|
            0 <= k < self.order.len() && self.has_child(#[trigger] self.order[k], parent, child) {
            let k = choose|k: int|
                0 <= k < self.order.len() && self.has_child(
                    #[trigger] self.order[k],
                    parent,
                    child,
                );
            assert(each(self.order[k])->Some_0.contains((parent, child)));
        }
    }

    /// No edge leaves the path of a struct, enum or union that has a
    /// summary and is not described, unless another item shares its path.
    pub proof fn lemma_undescribed_has_no_edges(self, id: Id, child: PathText)
        requires
            self.edges() is Some,
            self.parent(id) is Some,
            !self.index.contains_key(id),
            forall|other: Id| other != id ==> self.parent(other) != self.parent(id),
        ensures
            !self.edges()->Some_0.contains((self.parent(id)->Some_0, child)),
    {
        let parent = self.parent(id)->Some_0;
        self.lemma_edge_of_item(parent, child);
        if self.edges()->Some_0.contains((parent, child)) {
            let k = choose|k: int|
                0 <= k < self.order.len() && self.has_child(#[trigger] self.order[k], parent, child);
            assert(self.order[k] == id);
            assert(self.mentions(id) == Some(Seq::<PathText>::empty()));
        }
    }

    /// The parents are the paths of the structs, enums and unions among the
    /// items with a summary.
    pub proof fn lemma_parents(self, ids: Seq<Id>, path: PathText)
        ensures
            self.parents_among(ids).contains(path) <==> exists|k: int|
                0 <= k < ids.len() && self.parent(#[trigger] ids[k]) == Some(path),
        decreases ids.len(),
    {
        if ids.len() > 0 {
            let init = ids.drop_last();
            let head = self.parents_among(init);
            let all = self.parents_among(ids);
            self.lemma_parents(init, path);
            if head.contains(path) {
                let i = choose|i: int| 0 <= i < head.len() && head[i] == path;
                assert(all[i] == path);
                let k = choose|k: int|
                    0 <= k < init.len() && self.parent(#[trigger] init[k]) == Some(path);
                assert(ids[k] == init[k]);
            }
            if self.parent(ids.last()) == Some(path) {
                assert(all[all.len() - 1] == path);
            }
            if all.contains(path) {
                let i = choose|i: int| 0 <= i < all.len() && all[i] == path;
                if i < head.len() {
                    assert(head[i] == path);
                } else {
                    assert(self.parent(ids[ids.len() - 1]) == Some(path));
                }
            }
            if exists|k: int| 0 <= k < ids.len() && self.parent(#[trigger] ids[k]) == Some(path) {
                let k = choose|k: int|
                    0 <= k < ids.len() && self.parent(#[trigger] ids[k]) == Some(path);
                if k < init.len() {
                    assert(init[k] == ids[k]);
                }
            }
        }
    }
}

impl<'a> TypeGraph<'a> {
    /// The vertices of a type graph are the parents and the ends of the
    /// edges, each path once, and the graph has one node for each.
    pub proof fn lemma_vertices(
        self,
        parents: Seq<PathText>,
        edges: Seq<(PathText, PathText)>,
        path: PathText,
    )
        requires
            self.depicts(parents, edges),
        ensures
            texts_of(self.nodes@).no_duplicates(),
            graph_nodes(self.graph).no_duplicates(),
            graph_nodes(self.graph).len() == texts_of(self.nodes@).len(),
            texts_of(self.nodes@).contains(path) <==> (parents.contains(path) || exists|k: int|
                0 <= k < edges.len() && ((#[trigger] edges[k]).0 == path || edges[k].1 == path)),
    {
        let all = endpoints(edges) + parents;
        let n = self.nodes@.len();
        lemma_distinct(all);
        lemma_endpoints_contains(edges, path);
        assert(n == self.nodes.len());
        assert forall|i: int, j: int| 0 <= i < n && 0 <= j < n && i != j implies count_up(n)[i]
            != count_up(n)[j] by {
            assert(count_up(n)[i] == i && count_up(n)[j] == j);
        }
        if endpoints(edges).contains(path) {
            let i = choose|i: int| 0 <= i < endpoints(edges).len() && endpoints(edges)[i] == path;
            assert(all[i] == path);
        }
        if parents.contains(path) {
            let i = choose|i: int| 0 <= i < parents.len() && parents[i] == path;
            assert(all[endpoints(edges).len() + i] == path);
        }
        if all.contains(path) {
            let i = choose|i: int| 0 <= i < all.len() && all[i] == path;
            if i < endpoints(edges).len() {
                assert(endpoints(edges)[i] == path);
            } else {
                assert(parents[i - endpoints(edges).len()] == path);
            }
        }
    }

    /// Every struct, enum and union that has a summary is a vertex of the
    /// type graph of its crate, whether an edge touches it or not.
    pub proof fn lemma_parent_is_vertex(self, krate: CrateView, id: Id)
        requires
            krate.wf(),
            krate.edges() is Some,
            self.depicts(krate.parents(), krate.edges()->Some_0),
            krate.parent(id) is Some,
        ensures
            texts_of(self.nodes@).contains(krate.parent(id)->Some_0),
    {
        let path = krate.parent(id)->Some_0;
        assert(krate.order.contains(id));
        let k = choose|k: int| 0 <= k < krate.order.len() && krate.order[k] == id;
        krate.lemma_parents(krate.order, path);
        assert(krate.parent(krate.order[k]) == Some(path));
        self.lemma_vertices(krate.parents(), krate.edges()->Some_0, path);
    }

    /// A type graph holds each edge once: as many edges as there are
    /// distinct pairs of parent and child, and an edge between two
    /// positions exactly if there is one between their paths.
    pub proof fn lemma_edges_once(
        self,
        parents: Seq<PathText>,
        edges: Seq<(PathText, PathText)>,
        source: usize,
        target: usize,
    )
        requires
            self.depicts(parents, edges),
        ensures
            graph_edges(self.graph).no_duplicates(),
            graph_edges(self.graph).len() == distinct(edges).len(),
            graph_edges(self.graph).contains((source, target)) <==> (source < self.nodes@.len()
                && target < self.nodes@.len() && edges.contains(
                (texts_of(self.nodes@)[source as int], texts_of(self.nodes@)[target as int]),
            )),
    {
        let texts = texts_of(self.nodes@);
        let links = numbered(texts, edges);
        let place = |pair: (PathText, PathText)|
            (texts.index_of(pair.0) as usize, texts.index_of(pair.1) as usize);
        assert(texts.len() == self.nodes.len());
        assert(links =~= edges.map_values(place));
        lemma_distinct(links);
        lemma_distinct(endpoints(edges) + parents);
        assert forall|k: int| 0 <= k < edges.len() implies {
            &&& 0 <= texts.index_of((#[trigger] edges[k]).0) < texts.len()
            &&& 0 <= texts.index_of(edges[k].1) < texts.len()
            &&& texts[texts.index_of(edges[k].0)] == edges[k].0
            &&& texts[texts.index_of(edges[k].1)] == edges[k].1
        } by {
            self.lemma_vertices(parents, edges, edges[k].0);
            self.lemma_vertices(parents, edges, edges[k].1);
            assert(texts.contains(edges[k].0));
            assert(texts.contains(edges[k].1));
        }
        assert forall|i: int, j: int|
            0 <= i < edges.len() && 0 <= j < edges.len() && place(edges[i]) == place(
                edges[j],
            ) implies edges[i] == edges[j] by {
            assert(texts[texts.index_of(edges[i].0)] == edges[i].0);
            assert(texts[texts.index_of(edges[j].0)] == edges[j].0);
            assert(texts[texts.index_of(edges[i].1)] == edges[i].1);
            assert(texts[texts.index_of(edges[j].1)] == edges[j].1);
        }
        lemma_distinct_images(edges, place);
        if links.contains((source, target)) {
            let k = choose|k: int| 0 <= k < links.len() && links[k] == (source, target);
            assert(texts[texts.index_of(edges[k].0)] == edges[k].0);
            assert(texts[texts.index_of(edges[k].1)] == edges[k].1);
            assert(edges[k] == (texts[source as int], texts[target as int]));
        }
        if source < self.nodes@.len() && target < self.nodes@.len() && edges.contains(
            (texts[source as int], texts[target as int]),
        ) {
            let k = choose|k: int|
                0 <= k < edges.len() && edges[k] == (texts[source as int], texts[target as int]);
            assert(texts[texts.index_of(edges[k].0)] == edges[k].0);
            assert(texts[texts.index_of(edges[k].1)] == edges[k].1);
            assert(links[k] == (source, target));
        }
    }
}

/// The edges from each node to the nodes listed for it: node by node, and
/// for each node in the order of its list.
pub open spec fn fanned_out(lists: Seq<Vec<usize>>) -> Seq<(usize, usize)>
    decreases lists.len(),
{
    if lists.len() == 0 {
        Seq::empty()
    } else {
        let parent = (lists.len() - 1) as usize;
        fanned_out(lists.drop_last()) + Seq::new(
            lists.last()@.len(),
            |i: int| (parent, lists.last()@[i]),
        )
    }
}

/// The edges of a dependency graph: `dependencies` lists, for the node at
/// each position, the nodes that it depends on.
pub fn dependency_edges(dependencies: &Vec<Vec<usize>>) -> (edges: Vec<(usize, usize)>)
    ensures
        edges@ == fanned_out(dependencies@),
{
    let mut edges: Vec<(usize, usize)> = Vec::new();
    let mut parent: usize = 0;
    assert(dependencies@.take(0) =~= Seq::<Vec<usize>>::empty());
    while parent < dependencies.len()
        invariant
            parent <= dependencies@.len(),
            edges@ == fanned_out(dependencies@.take(parent as int)),
        decreases dependencies@.len() - parent,
    {
        let list = &dependencies[parent];
        let ghost before = edges@;
        let ghost added = Seq::new(list@.len(), |i: int| (parent, list@[i]));
        let mut i: usize = 0;
        while i < list.len()
            invariant
                i <= list@.len(),
                added == Seq::new(list@.len(), |i: int| (parent, list@[i])),
                edges@ == before + added.take(i as int),
            decreases list@.len() - i,
        {
            edges.push((parent, list[i]));
            assert(added.take(i + 1) =~= added.take(i as int).push(added[i as int]));
            i += 1;
        }
        proof {
            let now = dependencies@.take(parent + 1);
            assert(now.drop_last() =~= dependencies@.take(parent as int));
            assert(now.last() == *list);
            assert(added.take(list@.len() as int) =~= added);
        }
        parent += 1;
    }
    assert(dependencies@.take(dependencies@.len() as int) =~= dependencies@);
    edges
}

/// The dependency graph: `dependencies` lists, for the node at each
/// position, the nodes that it depends on. An edge leads from a node to
/// each node that it depends on; a node that no edge touches is left out.
pub fn dependency_graph(dependencies: &Vec<Vec<usize>>) -> (graph: DiGraphMap<usize, ()>)
    ensures
        graph_edges(graph) == distinct(fanned_out(dependencies@)),
        graph_nodes(graph) == distinct(endpoints(fanned_out(dependencies@))),
{
    let edges = dependency_edges(dependencies);
    graph_from_edges(&edges)
}

} // verus!
