use what_the_struct::builder::GraphBuilder;
use what_the_struct::registry::EdgeRegistry;
use what_the_struct::registry::FetchOutcome;
use what_the_struct::registry::VisitedRegistry;

fn ok(body: &str) -> FetchOutcome {
    FetchOutcome::Success(String::from(body))
}

fn failed(message: &str) -> FetchOutcome {
    FetchOutcome::Failure(String::from(message))
}

#[test]
fn first_claim_wins_and_later_claims_lose() {
    let mut visited = VisitedRegistry::new();
    assert!(visited.try_claim(4));
    assert!(!visited.try_claim(4));
    assert!(visited.try_claim(5));
    assert!(!visited.try_claim(4));
    assert!(!visited.try_claim(5));
    assert_eq!(visited.len(), 2);
    assert_eq!(visited.index_of(4), Some(0));
    assert_eq!(visited.index_of(5), Some(1));
    assert_eq!(visited.index_of(6), None);
}

#[test]
fn outcome_is_recorded_once_for_a_claimed_node() {
    let mut visited = VisitedRegistry::default();
    assert!(!visited.record_outcome(1, ok("too early")));
    assert_eq!(visited.get(1), None);
    assert!(visited.try_claim(1));
    assert_eq!(visited.get(1), None);
    assert!(!visited.is_settled());
    assert!(visited.record_outcome(1, ok("first")));
    assert_eq!(visited.get(1), Some(&ok("first")));
    assert!(!visited.record_outcome(1, failed("second")));
    assert_eq!(visited.get(1), Some(&ok("first")));
    assert!(visited.is_settled());
    assert!(!visited.try_claim(1));
}

#[test]
fn drained_registry_keeps_claim_order() {
    let mut visited = VisitedRegistry::new();
    for id in [9, 3, 7] {
        assert!(visited.try_claim(id));
    }
    assert!(visited.record_outcome(7, ok("seven")));
    assert!(visited.record_outcome(9, failed("nine")));
    assert!(visited.record_outcome(3, ok("three")));
    let (nodes, pages) = visited.drain();
    assert_eq!(nodes, vec![9, 3, 7]);
    assert_eq!(pages, vec![failed("nine"), ok("three"), ok("seven")]);
}

#[test]
fn edge_is_inserted_once_per_ordered_pair() {
    let mut edges = EdgeRegistry::new();
    assert!(edges.insert_if_new(1, 2));
    assert!(!edges.insert_if_new(1, 2));
    assert!(edges.insert_if_new(2, 1));
    assert!(edges.insert_if_new(1, 1));
    assert!(edges.contains(1, 2));
    assert!(edges.contains(2, 1));
    assert!(!edges.contains(2, 2));
    assert_eq!(edges.len(), 3);
    assert_eq!(edges.pair(1), Some((2, 1)));
    assert_eq!(edges.pair(3), None);
    assert_eq!(edges.drain(), vec![(1, 2), (2, 1), (1, 1)]);
}

#[test]
fn edges_with_extreme_ends_stay_apart() {
    let mut edges = EdgeRegistry::default();
    assert!(edges.insert_if_new(u64::MAX, 0));
    assert!(edges.insert_if_new(0, u64::MAX));
    assert!(edges.insert_if_new(u64::MAX, u64::MAX));
    assert!(edges.insert_if_new(0, 0));
    assert!(edges.insert_if_new(1, 0));
    assert!(edges.insert_if_new(0, 1));
    assert!(!edges.insert_if_new(u64::MAX, 0));
    assert_eq!(edges.len(), 6);
}

#[test]
fn builder_steps_through_a_crawl() {
    let mut builder = GraphBuilder::new();
    assert!(builder.is_quiescent());
    assert!(builder.claim(10));
    assert!(!builder.claim(10));
    assert!(!builder.is_quiescent());
    let next = builder.expand(10, ok("root"), Some(vec![11, 12, 11, 10]));
    assert_eq!(next, vec![11, 12, 10]);
    assert!(!builder.is_quiescent());
    assert!(builder.claim(11));
    assert!(builder.claim(12));
    assert_eq!(builder.expand(11, failed("gone"), Some(vec![13])), Vec::<u64>::new());
    assert!(!builder.is_quiescent());
    assert_eq!(builder.expand(12, ok("leaf"), None), Vec::<u64>::new());
    assert!(builder.is_quiescent());
    let (graph, pages) = builder.materialize();
    assert_eq!(graph.node_list(), vec![(0, 10), (1, 11), (2, 12)]);
    assert_eq!(graph.edge_list(), vec![(0, 1), (0, 2), (0, 0)]);
    assert_eq!(pages, vec![ok("root"), failed("gone"), ok("leaf")]);
    assert!(graph.contains_edge(10, 11));
    assert!(!graph.contains_edge(11, 10));
    assert!(!graph.contains_edge(11, 13));
    assert_eq!(graph.out_degree(1), 0);
    assert_eq!(graph.out_degree(0), 3);
}

#[test]
fn expanding_a_node_that_is_not_in_flight_changes_nothing() {
    let mut builder = GraphBuilder::default();
    assert_eq!(builder.expand(1, ok("unclaimed"), Some(vec![2])), Vec::<u64>::new());
    assert!(builder.claim(1));
    assert_eq!(builder.expand(1, ok("first"), Some(vec![2])), vec![2]);
    assert_eq!(builder.expand(1, ok("again"), Some(vec![3])), Vec::<u64>::new());
    assert!(builder.claim(2));
    assert_eq!(builder.expand(2, ok("leaf"), Some(vec![])), Vec::<u64>::new());
    let (graph, pages) = builder.materialize();
    assert_eq!(graph.node_count(), 2);
    assert_eq!(graph.edge_list(), vec![(0, 1)]);
    assert_eq!(pages, vec![ok("first"), ok("leaf")]);
}

#[test]
fn outcome_says_whether_it_is_a_success() {
    assert!(ok("x").is_success());
    assert!(!failed("x").is_success());
}
