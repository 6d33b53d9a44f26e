use what_the_struct::minimal::describe;
use what_the_struct::minimal::NESTED_UNIT_STRUCT;
use what_the_struct::minimal::PLAIN_STRUCT;
use what_the_struct::minimal::UNIT_STRUCT;
use what_the_struct::model::Crate;
use what_the_struct::model::ItemKind;
use what_the_struct::model::ItemSummary;
use what_the_struct::structy::locate;
use what_the_struct::structy::LocateError;
use what_the_struct::type_graph::dependency_edges;
use what_the_struct::type_graph::dependency_graph;

fn summary(kind: ItemKind, segments: &[&str]) -> ItemSummary {
    ItemSummary { kind, path: segments.iter().map(|segment| String::from(*segment)).collect() }
}

#[test]
fn item_is_located_by_its_whole_path() {
    let krate = describe();
    assert_eq!(locate(&krate, &["minimal", "PlainStruct"]), Ok(PLAIN_STRUCT));
    assert_eq!(locate(&krate, &["minimal", "UnitStruct"]), Ok(UNIT_STRUCT));
    assert_eq!(locate(&krate, &["minimal", "nested", "UnitStruct"]), Ok(NESTED_UNIT_STRUCT));
}

#[test]
fn path_that_no_item_has_is_not_found() {
    let krate = describe();
    assert_eq!(locate(&krate, &["minimal"]), Err(LocateError::NotFound));
    assert_eq!(locate(&krate, &["PlainStruct"]), Err(LocateError::NotFound));
    assert_eq!(locate(&krate, &["minimal", "PlainStruct", ""]), Err(LocateError::NotFound));
    assert_eq!(locate(&krate, &[]), Err(LocateError::NotFound));
    assert_eq!(locate(&Crate::new(), &["minimal"]), Err(LocateError::NotFound));
}

#[test]
fn first_item_at_a_path_decides() {
    let mut krate = Crate::new();
    krate.insert_path(9, summary(ItemKind::Other, &["a", "f"]));
    krate.insert_path(4, summary(ItemKind::Enum, &["a", "T"]));
    krate.insert_path(6, summary(ItemKind::Struct, &["a", "f"]));
    krate.insert_path(2, summary(ItemKind::Other, &["a", "T"]));
    assert_eq!(locate(&krate, &["a", "f"]), Err(LocateError::NotStructy));
    assert_eq!(locate(&krate, &["a", "T"]), Ok(4));
    krate.insert_path(9, summary(ItemKind::Union, &["a", "f"]));
    assert_eq!(locate(&krate, &["a", "f"]), Ok(9));
}

#[test]
fn dependency_edges_fan_out_node_by_node() {
    let dependencies = vec![vec![1, 2], vec![], vec![1, 0, 1], vec![3]];
    assert_eq!(
        dependency_edges(&dependencies),
        [(0, 1), (0, 2), (2, 1), (2, 0), (2, 1), (3, 3)]
    );
    assert!(dependency_edges(&Vec::new()).is_empty());
    assert!(dependency_edges(&vec![vec![], vec![]]).is_empty());
}

#[test]
fn dependency_graph_holds_each_edge_once() {
    let dependencies = vec![vec![2, 1], vec![], vec![1, 0, 1], vec![], vec![4]];
    let graph = dependency_graph(&dependencies);
    assert_eq!(graph.nodes().collect::<Vec<usize>>(), [0, 2, 1, 4]);
    let edges: Vec<(usize, usize)> =
        graph.all_edges().map(|(source, target, _)| (source, target)).collect();
    assert_eq!(edges, [(0, 2), (0, 1), (2, 1), (2, 0), (4, 4)]);
    assert!(!graph.contains_node(3));
    assert!(graph.contains_edge(2, 0));
    assert!(!graph.contains_edge(1, 2));
}
