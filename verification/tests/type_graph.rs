use what_the_struct::minimal::describe;
use what_the_struct::minimal::EMPTY_PLAIN_STRUCT;
use what_the_struct::minimal::NESTED_UNIT_STRUCT;
use what_the_struct::minimal::PLAIN_STRUCT;
use what_the_struct::minimal::UNIT_STRUCT;
use what_the_struct::model::Crate;
use what_the_struct::model::Id;
use what_the_struct::model::ItemEnum;
use what_the_struct::model::ItemKind;
use what_the_struct::model::ItemSummary;
use what_the_struct::model::StructKind;
use what_the_struct::model::Type;
use what_the_struct::model::VariantKind;
use what_the_struct::primitive::Primitives;
use what_the_struct::structy::children;
use what_the_struct::structy::field_types;
use what_the_struct::structy::get_resolved_paths;
use what_the_struct::structy::mentions;
use what_the_struct::structy::parent_and_children;
use what_the_struct::structy::resolved_paths;
use what_the_struct::structy::struct_field;
use what_the_struct::structy::struct_parent_and_children;
use what_the_struct::structy::unwrap_struct_field;
use what_the_struct::structy::StructyPath;
use what_the_struct::type_graph::build_type_graph;
use what_the_struct::type_graph::graph_of;
use what_the_struct::type_graph::type_edges;
use what_the_struct::type_graph::type_graph;
use what_the_struct::type_graph::type_parents;

fn path(segments: &[&str]) -> Vec<String> {
    segments.iter().map(|segment| String::from(*segment)).collect()
}

fn do_test(parent: &[&str], children: &[&[&str]]) {
    let krate = describe();
    let mut ids = Vec::new();
    for k in 0..krate.path_count() {
        let id = krate.path_id(k).unwrap();
        if krate.summary(id).unwrap().path == parent {
            ids.push(id);
        }
    }
    assert_eq!(ids.len(), 1);
    let id = ids[0];

    let (_, actual) = struct_parent_and_children(&krate, id);
    assert_eq!(children, actual);
}

#[test]
fn plain_struct() {
    do_test(
        &["minimal", "PlainStruct"],
        &[
            &["core", "primitive", "bool"],
            &["core", "primitive", "i8"],
            &["minimal", "EmptyPlainStruct"],
            &["minimal", "nested", "UnitStruct"],
            &["core", "primitive", "char"],
            &["core", "primitive", "u8"],
        ],
    )
}

#[test]
fn structs_without_fields_have_no_children() {
    do_test(&["minimal", "UnitStruct"], &[]);
    do_test(&["minimal", "EmptyPlainStruct"], &[]);
    do_test(&["minimal", "nested", "UnitStruct"], &[]);
}

#[test]
fn parent_is_the_path_of_the_item() {
    let krate = describe();
    let (parent, _) = struct_parent_and_children(&krate, PLAIN_STRUCT);
    assert_eq!(*parent, path(&["minimal", "PlainStruct"]));
    let (parent, children) = parent_and_children(&krate, NESTED_UNIT_STRUCT).unwrap();
    assert_eq!(*parent, path(&["minimal", "nested", "UnitStruct"]));
    assert!(children.is_empty());
}

/// A description with one item of each shape.
///
/// ```text
/// struct Point(i32, /* hidden */, &Shape);        // 1
/// enum Shape { Dot, Line(Point, Point), Box { corner: *const Point, sides: (u8, [u16; 2]) } }  // 2
/// union Bits { word: u64, flag: bool }            // 3
/// fn helper()                                     // 4
/// struct Outside;  (summary only)                 // 5
/// ```
fn shapes() -> Crate {
    let mut krate = Crate::new();
    let summary = |kind, segments: &[&str]| ItemSummary { kind, path: path(segments) };
    krate.insert_path(1, summary(ItemKind::Struct, &["shapes", "Point"]));
    krate.insert_path(2, summary(ItemKind::Enum, &["shapes", "Shape"]));
    krate.insert_path(3, summary(ItemKind::Union, &["shapes", "Bits"]));
    krate.insert_path(4, summary(ItemKind::Other, &["shapes", "helper"]));
    krate.insert_path(5, summary(ItemKind::Struct, &["elsewhere", "Outside"]));
    let primitive = |name: &str| Type::Primitive(String::from(name));

    krate.insert_item(1, ItemEnum::Struct(StructKind::Tuple(vec![Some(10), None, Some(11)])));
    krate.insert_item(10, ItemEnum::StructField(primitive("i32")));
    krate.insert_item(11, ItemEnum::StructField(Type::BorrowedRef(Box::new(Type::ResolvedPath(2)))));

    krate.insert_item(2, ItemEnum::Enum(vec![20, 21, 22]));
    krate.insert_item(20, ItemEnum::Variant(VariantKind::Plain));
    krate.insert_item(21, ItemEnum::Variant(VariantKind::Tuple(vec![Some(23), Some(24)])));
    krate.insert_item(22, ItemEnum::Variant(VariantKind::Struct(vec![25, 26])));
    krate.insert_item(23, ItemEnum::StructField(Type::ResolvedPath(1)));
    krate.insert_item(24, ItemEnum::StructField(Type::ResolvedPath(1)));
    krate.insert_item(25, ItemEnum::StructField(Type::RawPointer(Box::new(Type::ResolvedPath(1)))));
    krate.insert_item(
        26,
        ItemEnum::StructField(Type::Tuple(vec![
            primitive("u8"),
            Type::Array(Box::new(primitive("u16"))),
            Type::Generic,
            Type::DynTrait,
            Type::FunctionPointer,
            Type::ImplTrait,
            Type::Infer,
            Type::QualifiedPath,
            Type::ResolvedPath(5),
        ])),
    );

    krate.insert_item(3, ItemEnum::Union(vec![30, 31]));
    krate.insert_item(30, ItemEnum::StructField(primitive("u64")));
    krate.insert_item(31, ItemEnum::StructField(primitive("bool")));

    krate.insert_item(4, ItemEnum::Other);
    krate
}

fn texts(found: &[StructyPath<'_>]) -> Vec<String> {
    found.iter().map(|path| path.to_string()).collect()
}

#[test]
fn tuple_struct_skips_hidden_fields() {
    let krate = shapes();
    assert_eq!(texts(&children(&krate, 1).unwrap()), ["core::primitive::i32", "shapes::Shape"]);
}

#[test]
fn enum_gathers_its_variants_in_order() {
    let krate = shapes();
    assert_eq!(
        texts(&mentions(&krate, 2).unwrap()),
        [
            "shapes::Point",
            "shapes::Point",
            "shapes::Point",
            "core::primitive::u8",
            "core::primitive::u16",
            "elsewhere::Outside",
        ]
    );
    assert_eq!(field_types(&krate, 2).unwrap().len(), 4);
}

#[test]
fn child_mentioned_by_several_fields_is_one_child() {
    let krate = shapes();
    assert_eq!(
        texts(&children(&krate, 2).unwrap()),
        ["shapes::Point", "core::primitive::u8", "core::primitive::u16", "elsewhere::Outside"]
    );
    let (_, found) = struct_parent_and_children(&krate, 2);
    assert_eq!(found.len(), 4);
}

#[test]
fn two_fields_of_one_type_give_one_child() {
    let mut krate = Crate::new();
    krate.insert_path(1, ItemSummary { kind: ItemKind::Struct, path: path(&["m", "P"]) });
    krate.insert_item(1, ItemEnum::Struct(StructKind::Plain(vec![2, 3])));
    krate.insert_item(2, ItemEnum::StructField(Type::Primitive(String::from("bool"))));
    krate.insert_item(3, ItemEnum::StructField(Type::Primitive(String::from("bool"))));
    let (parent, found) = struct_parent_and_children(&krate, 1);
    assert_eq!(*parent, path(&["m", "P"]));
    assert_eq!(found, [&path(&["core", "primitive", "bool"])]);
    assert_eq!(texts(&mentions(&krate, 1).unwrap()).len(), 2);
    let built = build_type_graph(&krate);
    assert_eq!(texts(&built.nodes), ["m::P", "core::primitive::bool"]);
    assert_eq!(built.graph.edge_count(), 1);
    assert!(built.graph.contains_edge(0, 1));
}

#[test]
fn struct_without_fields_is_a_single_vertex() {
    let mut krate = Crate::new();
    krate.insert_path(1, ItemSummary { kind: ItemKind::Struct, path: path(&["m", "R"]) });
    krate.insert_item(1, ItemEnum::Struct(StructKind::Unit));
    let built = build_type_graph(&krate);
    assert_eq!(texts(&built.nodes), ["m::R"]);
    assert_eq!(built.graph.node_count(), 1);
    assert!(built.graph.contains_node(0));
    assert_eq!(built.graph.edge_count(), 0);
}

#[test]
fn every_struct_enum_and_union_is_a_vertex() {
    let mut krate = shapes();
    krate.insert_path(40, ItemSummary { kind: ItemKind::Enum, path: path(&["shapes", "Never"]) });
    krate.insert_item(40, ItemEnum::Enum(vec![]));
    krate.insert_path(41, ItemSummary { kind: ItemKind::Union, path: path(&["far", "Away"]) });
    krate.insert_path(42, ItemSummary { kind: ItemKind::Other, path: path(&["shapes", "f"]) });
    let parents = type_parents(&krate);
    assert_eq!(
        texts(&parents),
        ["shapes::Point", "shapes::Shape", "shapes::Bits", "elsewhere::Outside", "shapes::Never", "far::Away"]
    );
    let built = build_type_graph(&krate);
    assert_eq!(built.graph.node_count(), 11);
    assert_eq!(texts(&built.nodes)[9..], ["shapes::Never", "far::Away"]);
    assert_eq!(built.graph.nodes().collect::<Vec<usize>>(), (0..11).collect::<Vec<usize>>());
    assert_eq!(built.graph.edge_count(), 8);
    assert_eq!(built.graph.neighbors(9).count(), 0);
    assert_eq!(built.graph.neighbors(10).count(), 0);
}

#[test]
fn union_gathers_its_fields() {
    let krate = shapes();
    let (parent, found) = struct_parent_and_children(&krate, 3);
    assert_eq!(*parent, path(&["shapes", "Bits"]));
    assert_eq!(found, [&path(&["core", "primitive", "u64"]), &path(&["core", "primitive", "bool"])]);
}

#[test]
fn item_that_is_no_struct_enum_or_union_has_no_parent() {
    let krate = shapes();
    assert_eq!(parent_and_children(&krate, 4), None);
    assert!(children(&krate, 4).is_none());
    assert!(field_types(&krate, 4).is_none());
}

#[test]
fn item_without_description_has_no_children() {
    let krate = shapes();
    let outside = path(&["elsewhere", "Outside"]);
    assert_eq!(parent_and_children(&krate, 5), Some((&outside, vec![])));
    let (parent, found) = struct_parent_and_children(&krate, 5);
    assert_eq!(*parent, outside);
    assert!(found.is_empty());
    assert!(texts(&children(&krate, 5).unwrap()).is_empty());
    assert!(field_types(&krate, 5).is_none());
    assert_eq!(parent_and_children(&krate, 77), None);
}

#[test]
fn struct_field_is_unwrapped_and_nothing_else() {
    let krate = shapes();
    assert_eq!(*unwrap_struct_field(&krate, 10), Type::Primitive(String::from("i32")));
    assert_eq!(
        *unwrap_struct_field(&krate, 11),
        Type::BorrowedRef(Box::new(Type::ResolvedPath(2)))
    );
    assert_eq!(struct_field(&krate, 10), Some(&Type::Primitive(String::from("i32"))));
    assert_eq!(struct_field(&krate, 1), None);
    assert_eq!(struct_field(&krate, 20), None);
    assert_eq!(struct_field(&krate, 99), None);
}

#[test]
fn field_that_is_no_field_spoils_the_item() {
    let mut krate = shapes();
    krate.insert_item(30, ItemEnum::Other);
    assert_eq!(parent_and_children(&krate, 3), None);
    assert!(parent_and_children(&krate, 1).is_some());
    assert!(type_edges(&krate).is_none());
    assert!(type_graph(&krate).is_none());
}

#[test]
fn variant_that_is_no_variant_spoils_the_enum() {
    let mut krate = shapes();
    krate.insert_item(20, ItemEnum::StructField(Type::Infer));
    assert!(field_types(&krate, 2).is_none());
    assert_eq!(parent_and_children(&krate, 2), None);
}

#[test]
fn missing_field_spoils_the_item() {
    let mut krate = shapes();
    krate.insert_item(1, ItemEnum::Struct(StructKind::Plain(vec![10, 12])));
    assert!(field_types(&krate, 1).is_none());
}

#[test]
fn resolved_paths_of_each_type() {
    let krate = shapes();
    let resolved = |ty: &Type| resolved_paths(&krate, ty).map(|found| texts(&found));
    assert_eq!(
        texts(&get_resolved_paths(&krate, &Type::Array(Box::new(Type::ResolvedPath(3))))),
        ["shapes::Bits"]
    );
    assert!(get_resolved_paths(&krate, &Type::Infer).is_empty());
    let none: Option<Vec<String>> = Some(vec![]);
    assert_eq!(resolved(&Type::ResolvedPath(3)), Some(vec![String::from("shapes::Bits")]));
    assert_eq!(resolved(&Type::ResolvedPath(4)), Some(vec![String::from("shapes::helper")]));
    assert_eq!(resolved(&Type::ResolvedPath(10)), None);
    assert_eq!(
        resolved(&Type::Primitive(String::from("usize"))),
        Some(vec![String::from("core::primitive::usize")])
    );
    assert_eq!(resolved(&Type::Primitive(String::from("str"))), None);
    assert_eq!(resolved(&Type::Primitive(String::from("never"))), None);
    assert_eq!(resolved(&Type::Tuple(vec![])), none);
    assert_eq!(resolved(&Type::DynTrait), none);
    assert_eq!(resolved(&Type::Generic), none);
    assert_eq!(resolved(&Type::FunctionPointer), none);
    assert_eq!(resolved(&Type::ImplTrait), none);
    assert_eq!(resolved(&Type::Infer), none);
    assert_eq!(resolved(&Type::QualifiedPath), none);
    let nested = Type::Slice(Box::new(Type::Tuple(vec![
        Type::RawPointer(Box::new(Type::ResolvedPath(2))),
        Type::Tuple(vec![Type::Primitive(String::from("i128")), Type::Infer]),
        Type::Array(Box::new(Type::BorrowedRef(Box::new(Type::ResolvedPath(1))))),
    ])));
    assert_eq!(
        resolved(&nested),
        Some(vec![
            String::from("shapes::Shape"),
            String::from("core::primitive::i128"),
            String::from("shapes::Point"),
        ])
    );
    let spoiled = Type::Tuple(vec![Type::ResolvedPath(1), Type::Primitive(String::from("str"))]);
    assert_eq!(resolved(&spoiled), None);
}

#[test]
fn unknown_primitive_spoils_the_item() {
    let mut krate = shapes();
    krate.insert_item(31, ItemEnum::StructField(Type::Primitive(String::from("str"))));
    assert_eq!(parent_and_children(&krate, 3), None);
    assert!(type_graph(&krate).is_none());
}

#[test]
fn every_built_in_type_has_its_path() {
    let table = Primitives::new();
    for name in [
        "bool", "char", "f32", "f64", "i8", "i16", "i32", "i64", "i128", "isize", "u8", "u16",
        "u32", "u64", "u128", "usize",
    ] {
        assert_eq!(table.get(&String::from(name)), Some(&path(&["core", "primitive", name])));
    }
    for name in ["str", "never", "unit", "", "Bool", "u256", "core"] {
        assert_eq!(Primitives::default().get(&String::from(name)), None);
    }
}

#[test]
fn path_is_written_with_double_colons() {
    let segments = path(&["minimal", "nested", "UnitStruct"]);
    assert_eq!(StructyPath(&segments).to_string(), "minimal::nested::UnitStruct");
    let one = path(&["minimal"]);
    assert_eq!(StructyPath(&one).to_string(), "minimal");
    let none = path(&[]);
    assert_eq!(StructyPath(&none).to_string(), "");
}

#[test]
fn path_matches_its_segments_only() {
    let segments = path(&["minimal", "PlainStruct"]);
    let structy = StructyPath(&segments);
    assert!(structy.matches(&["minimal", "PlainStruct"]));
    assert!(!structy.matches(&["minimal", "plainStruct"]));
    assert!(!structy.matches(&["minimal"]));
    assert!(!structy.matches(&["minimal", "PlainStruct", ""]));
    assert!(!structy.matches(&[]));
    let same = path(&["minimal", "PlainStruct"]);
    assert_eq!(structy, StructyPath(&same));
}

#[test]
fn structy_kinds() {
    assert!(ItemKind::Struct.is_structy());
    assert!(ItemKind::Enum.is_structy());
    assert!(ItemKind::Union.is_structy());
    assert!(!ItemKind::Other.is_structy());
}

#[test]
fn edges_follow_the_order_of_the_summaries() {
    let krate = shapes();
    let edges: Vec<(String, String)> = type_edges(&krate)
        .unwrap()
        .iter()
        .map(|(parent, child)| (parent.to_string(), child.to_string()))
        .collect();
    let expected: Vec<(String, String)> = [
        ("shapes::Point", "core::primitive::i32"),
        ("shapes::Point", "shapes::Shape"),
        ("shapes::Shape", "shapes::Point"),
        ("shapes::Shape", "core::primitive::u8"),
        ("shapes::Shape", "core::primitive::u16"),
        ("shapes::Shape", "elsewhere::Outside"),
        ("shapes::Bits", "core::primitive::u64"),
        ("shapes::Bits", "core::primitive::bool"),
    ]
    .iter()
    .map(|(parent, child)| (String::from(*parent), String::from(*child)))
    .collect();
    assert_eq!(edges, expected);
}

#[test]
fn type_graph_of_the_shapes() {
    let krate = shapes();
    let built = build_type_graph(&krate);
    assert_eq!(
        texts(&built.nodes),
        [
            "shapes::Point",
            "core::primitive::i32",
            "shapes::Shape",
            "core::primitive::u8",
            "core::primitive::u16",
            "elsewhere::Outside",
            "shapes::Bits",
            "core::primitive::u64",
            "core::primitive::bool",
        ]
    );
    assert_eq!(built.graph.node_count(), 9);
    assert_eq!(built.graph.nodes().collect::<Vec<usize>>(), (0..9).collect::<Vec<usize>>());
    let edges: Vec<(usize, usize)> =
        built.graph.all_edges().map(|(source, target, _)| (source, target)).collect();
    assert_eq!(edges, [(0, 1), (0, 2), (2, 0), (2, 3), (2, 4), (2, 5), (6, 7), (6, 8)]);
    assert!(built.graph.contains_edge(2, 0));
    assert!(!built.graph.contains_edge(1, 0));
    assert!(!built.graph.contains_edge(0, 0));
}

#[test]
fn type_graph_of_the_sample() {
    let krate = describe();
    let built = type_graph(&krate).unwrap();
    assert_eq!(
        texts(&built.nodes),
        [
            "minimal::PlainStruct",
            "core::primitive::bool",
            "core::primitive::i8",
            "minimal::EmptyPlainStruct",
            "minimal::nested::UnitStruct",
            "core::primitive::char",
            "core::primitive::u8",
            "minimal::UnitStruct",
        ]
    );
    assert_eq!(built.graph.node_count(), 8);
    assert_eq!(built.graph.neighbors(7).count(), 0);
    assert_eq!(built.graph.edge_count(), 6);
    for child in 1..7 {
        assert!(built.graph.contains_edge(0, child));
        assert!(!built.graph.contains_edge(child, 0));
    }
    let ids: [Id; 4] = [UNIT_STRUCT, EMPTY_PLAIN_STRUCT, PLAIN_STRUCT, NESTED_UNIT_STRUCT];
    assert_eq!(ids, [1, 2, 3, 5]);
}

#[test]
fn graph_of_no_edges_is_empty() {
    let built = graph_of(&Vec::new(), &Vec::new());
    assert!(built.nodes.is_empty());
    assert_eq!(built.graph.node_count(), 0);
    assert_eq!(built.graph.edge_count(), 0);
}

#[test]
fn graph_joins_equal_paths_and_keeps_loops() {
    let a = path(&["a"]);
    let same = path(&["a"]);
    let b = path(&["b"]);
    let edges = vec![
        (StructyPath(&a), StructyPath(&same)),
        (StructyPath(&b), StructyPath(&a)),
        (StructyPath(&same), StructyPath(&a)),
        (StructyPath(&b), StructyPath(&a)),
    ];
    let c = path(&["c"]);
    let parents = vec![StructyPath(&b), StructyPath(&c), StructyPath(&same), StructyPath(&c)];
    let built = graph_of(&parents, &edges);
    assert_eq!(texts(&built.nodes), ["a", "b", "c"]);
    assert_eq!(built.graph.nodes().collect::<Vec<usize>>(), [0, 1, 2]);
    let found: Vec<(usize, usize)> =
        built.graph.all_edges().map(|(source, target, _)| (source, target)).collect();
    assert_eq!(found, [(0, 0), (1, 0)]);
}

#[test]
fn summary_replaces_and_keeps_its_place() {
    let mut krate = Crate::default();
    let summary = |kind, segments: &[&str]| ItemSummary { kind, path: path(segments) };
    krate.insert_path(8, summary(ItemKind::Other, &["x"]));
    krate.insert_path(3, summary(ItemKind::Struct, &["y"]));
    krate.insert_path(8, summary(ItemKind::Enum, &["z"]));
    assert_eq!(krate.path_count(), 2);
    assert_eq!(krate.path_id(0), Some(8));
    assert_eq!(krate.path_id(1), Some(3));
    assert_eq!(krate.path_id(2), None);
    assert_eq!(krate.summary(8), Some(&summary(ItemKind::Enum, &["z"])));
    assert_eq!(krate.summary(9), None);
    assert_eq!(krate.item(8), None);
    krate.insert_item(8, ItemEnum::Enum(vec![]));
    assert_eq!(krate.item(8), Some(&ItemEnum::Enum(vec![])));
    assert!(texts(&children(&krate, 8).unwrap()).is_empty());
}
