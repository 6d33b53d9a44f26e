use std::cell::RefCell;

use what_the_struct::builder::GraphBuilder;
use what_the_struct::graph::Graph;
use what_the_struct::registry::FetchOutcome;
use what_the_struct::registry::NodeId;

const A: NodeId = 1;
const B: NodeId = 2;
const C: NodeId = 3;

/// Crawls a fixed site: `links` gives the children of each page that can be
/// fetched; every other page fails. Returns the graph, the pages, and the
/// identifiers in the order in which they were fetched and expanded.
fn crawl_site(
    root: NodeId,
    links: &[(NodeId, &[NodeId])],
) -> (Graph, Vec<FetchOutcome>, Vec<NodeId>, Vec<NodeId>) {
    let fetched = RefCell::new(Vec::new());
    let expanded = RefCell::new(Vec::new());
    let (graph, pages) = GraphBuilder::crawl(
        root,
        |id| {
            fetched.borrow_mut().push(id);
            match links.iter().find(|(page, _)| *page == id) {
                Some(_) => FetchOutcome::Success(format!("page {id}")),
                None => FetchOutcome::Failure(format!("no page {id}")),
            }
        },
        |id, body: &String| {
            expanded.borrow_mut().push(id);
            assert_eq!(*body, format!("page {id}"));
            let (_, children) = links.iter().find(|(page, _)| *page == id)?;
            if children.is_empty() {
                None
            } else {
                Some(children.to_vec())
            }
        },
    );
    (graph, pages, fetched.into_inner(), expanded.into_inner())
}

fn edges_by_id(graph: &Graph) -> Vec<(NodeId, NodeId)> {
    graph
        .edge_list()
        .into_iter()
        .map(|(source, target)| (graph.node(source).unwrap(), graph.node(target).unwrap()))
        .collect()
}

fn times(fetched: &[NodeId], id: NodeId) -> usize {
    fetched.iter().filter(|seen| **seen == id).count()
}

#[test]
fn root_without_children_is_a_single_vertex() {
    let (graph, pages) = GraphBuilder::crawl(
        7,
        |_id| FetchOutcome::Success(String::from("leaf")),
        |_id, _body| None,
    );
    assert_eq!(graph.node_count(), 1);
    assert_eq!(graph.edge_count(), 0);
    assert_eq!(graph.node(0), Some(7));
    assert_eq!(graph.node(1), None);
    assert_eq!(pages, vec![FetchOutcome::Success(String::from("leaf"))]);
}

#[test]
fn root_with_an_empty_set_of_children_is_a_single_vertex() {
    let (graph, _pages) = GraphBuilder::crawl(
        7,
        |_id| FetchOutcome::Success(String::new()),
        |_id, _body| Some(Vec::new()),
    );
    assert_eq!(graph.node_count(), 1);
    assert_eq!(graph.edge_count(), 0);
}

#[test]
fn shared_child_is_fetched_once() {
    let (graph, pages, fetched, _) = crawl_site(A, &[(A, &[B, C]), (B, &[C]), (C, &[])]);
    assert_eq!(graph.node_count(), 3);
    assert_eq!(graph.index_of(A), Some(0));
    assert!(graph.index_of(B).is_some());
    assert!(graph.index_of(C).is_some());
    let mut edges = edges_by_id(&graph);
    edges.sort();
    assert_eq!(edges, vec![(A, B), (A, C), (B, C)]);
    assert_eq!(graph.edge_count(), 3);
    assert_eq!(times(&fetched, C), 1);
    assert_eq!(fetched.len(), 3);
    assert_eq!(pages.len(), 3);
}

#[test]
fn shared_child_is_visited_depth_first() {
    let (graph, _pages, fetched, _) = crawl_site(A, &[(A, &[B, C]), (B, &[C]), (C, &[])]);
    assert_eq!(fetched, vec![A, B, C]);
    assert_eq!(graph.node_list(), vec![(0, A), (1, B), (2, C)]);
    assert_eq!(graph.edge_list(), vec![(0, 1), (0, 2), (1, 2)]);
}

#[test]
fn failed_fetch_ends_its_branch_only() {
    // B cannot be fetched; had it been, it would have led to 9.
    let (graph, pages, fetched, expanded) = crawl_site(A, &[(A, &[B, C]), (C, &[])]);
    assert_eq!(graph.node_count(), 3);
    assert!(graph.contains_edge(A, B));
    assert!(graph.contains_edge(A, C));
    let b = graph.index_of(B).unwrap();
    assert_eq!(graph.out_degree(b), 0);
    assert_eq!(pages[b], FetchOutcome::Failure(String::from("no page 2")));
    assert_eq!(graph.index_of(9), None);
    assert_eq!(times(&fetched, B), 1);
    assert!(!expanded.contains(&B));
    assert_eq!(expanded, vec![A, C]);
}

#[test]
fn failed_root_is_a_single_vertex() {
    let (graph, pages, fetched, expanded) = crawl_site(A, &[]);
    assert_eq!(graph.node_count(), 1);
    assert_eq!(graph.edge_count(), 0);
    assert_eq!(pages, vec![FetchOutcome::Failure(String::from("no page 1"))]);
    assert_eq!(fetched, vec![A]);
    assert!(expanded.is_empty());
}

#[test]
fn link_back_to_an_ancestor_ends_the_descent() {
    let (graph, _pages, fetched, expanded) = crawl_site(A, &[(A, &[B]), (B, &[C]), (C, &[A])]);
    assert_eq!(graph.node_count(), 3);
    let mut edges = edges_by_id(&graph);
    edges.sort();
    assert_eq!(edges, vec![(A, B), (B, C), (C, A)]);
    assert_eq!(times(&fetched, A), 1);
    assert_eq!(times(&expanded, A), 1);
    assert_eq!(fetched, vec![A, B, C]);
}

#[test]
fn link_to_itself_is_an_edge_and_no_second_fetch() {
    let (graph, _pages, fetched, _) = crawl_site(A, &[(A, &[A])]);
    assert_eq!(graph.node_count(), 1);
    assert_eq!(graph.edge_list(), vec![(0, 0)]);
    assert_eq!(fetched, vec![A]);
}

#[test]
fn two_parents_of_one_child_fetch_it_once() {
    let (graph, _pages, fetched, _) = crawl_site(A, &[(A, &[B, C]), (B, &[4]), (C, &[4]), (4, &[])]);
    assert_eq!(times(&fetched, 4), 1);
    assert!(graph.contains_edge(B, 4));
    assert!(graph.contains_edge(C, 4));
    assert_eq!(graph.node_count(), 4);
    assert_eq!(graph.edge_count(), 4);
}

#[test]
fn child_named_twice_counts_once() {
    let (graph, _pages, fetched, _) = crawl_site(A, &[(A, &[B, B, C, B]), (B, &[]), (C, &[])]);
    assert_eq!(edges_by_id(&graph), vec![(A, B), (A, C)]);
    assert_eq!(fetched, vec![A, B, C]);
}

#[test]
fn vertices_are_the_distinct_fetched_nodes() {
    let (graph, pages, mut fetched, _) =
        crawl_site(A, &[(A, &[B, C, 5]), (B, &[C, A]), (C, &[B, 6]), (6, &[A, 7])]);
    assert_eq!(graph.node_count(), fetched.len());
    assert_eq!(pages.len(), fetched.len());
    fetched.sort();
    fetched.dedup();
    assert_eq!(graph.node_count(), fetched.len());
    assert_eq!(fetched, vec![A, B, C, 5, 6, 7]);
}

#[test]
fn no_edge_occurs_twice() {
    let (graph, _pages, _, _) =
        crawl_site(A, &[(A, &[B, C, B]), (B, &[C, A, C]), (C, &[B, A, A])]);
    let mut edges = edges_by_id(&graph);
    let all = edges.len();
    edges.sort();
    edges.dedup();
    assert_eq!(edges.len(), all);
    assert_eq!(all, 6);
}

#[test]
fn cyclic() {
    let (graph, pages, _, _) = crawl_site(0, &[(0, &[1]), (1, &[2]), (2, &[1])]);
    assert_eq!(graph.node_count(), 3);
    assert_eq!(pages.len(), 3);
}

#[test]
fn two_children() {
    let (graph, pages, _, _) = crawl_site(0, &[(0, &[1, 2])]);
    assert_eq!(graph.node_count(), 3);
    assert_eq!(pages.len(), 3);
}

#[test]
fn single_grandchild() {
    let (graph, pages, _, _) = crawl_site(0, &[(0, &[1]), (1, &[2])]);
    assert_eq!(graph.node_count(), 3);
    assert_eq!(pages.len(), 3);
}

#[test]
fn single_child() {
    let (graph, pages, _, _) = crawl_site(0, &[(0, &[1])]);
    assert_eq!(graph.node_count(), 2);
    assert_eq!(pages.len(), 2);
}

#[test]
fn terminal_node() {
    let (graph, pages, _, _) = crawl_site(0, &[(0, &[])]);
    assert_eq!(graph.node_count(), 1);
    assert_eq!(pages.len(), 1);
}

#[test]
fn terminal_node_err() {
    let (graph, pages, _, _) = crawl_site(0, &[]);
    assert_eq!(graph.node_count(), 1);
    assert_eq!(pages.len(), 1);
}

#[test]
fn deep_chain_is_followed_to_its_end() {
    let depth: NodeId = 300;
    let (graph, pages) = GraphBuilder::crawl(
        0,
        |id| FetchOutcome::Success(id.to_string()),
        |id, _body| if id < depth { Some(vec![id + 1]) } else { None },
    );
    assert_eq!(graph.node_count(), 301);
    assert_eq!(graph.edge_count(), 300);
    assert_eq!(pages[300], FetchOutcome::Success(String::from("300")));
    assert_eq!(graph.out_degree(300), 0);
    assert_eq!(graph.out_degree(0), 1);
}
