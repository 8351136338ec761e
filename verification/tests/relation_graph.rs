use birei::relation_graph::{
    anchor_field_index, assign_layers, drawn_edge_indices, edge_path_key, layer_grid, RelationGraphEdge,
    RelationGraphNode, RelationGraphNodeField,
};

fn node(id: u128, name: &str) -> RelationGraphNode {
    RelationGraphNode::new(id, "box", name)
}

fn edge(id: u128, source: u128, target: u128) -> RelationGraphEdge {
    RelationGraphEdge::new(id, source, target, "rel")
}

#[test]
fn builds_nodes_fields_and_edges() {
    let field = RelationGraphNodeField::new("id", "Id", "uuid").highlighted(true);
    assert!(field.highlighted);
    assert_eq!((field.ident.as_str(), field.name.as_str(), field.typ.as_str()), ("id", "Id", "uuid"));
    let n = node(1, "A").description("first").loaded(true).fields(vec![field]);
    assert_eq!(n.description, "first");
    assert!(n.loaded);
    assert_eq!(n.fields.len(), 1);
    let e = edge(9, 1, 2).source_ident("id").target_ident("ref");
    assert_eq!(e.source_ident.as_deref(), Some("id"));
    assert_eq!(e.target_ident.as_deref(), Some("ref"));
}

#[test]
fn keys_edge_paths_by_uuid() {
    let e = edge(0xa1a2a3a4b1b2c1c2d1d2d3d4d5d6d7d8, 1, 2);
    assert_eq!(edge_path_key(&e), "a1a2a3a4-b1b2-c1c2-d1d2-d3d4d5d6d7d8-direct");
    let zero = edge(0, 1, 2);
    assert_eq!(edge_path_key(&zero), "00000000-0000-0000-0000-000000000000-direct");
}

#[test]
fn anchors_edges_at_field_rows() {
    let fields = vec![
        RelationGraphNodeField::new("a", "A", "t"),
        RelationGraphNodeField::new("b", "B", "t"),
        RelationGraphNodeField::new("b", "B2", "t"),
    ];
    assert_eq!(anchor_field_index(&fields, Some("b")), Some(1));
    assert_eq!(anchor_field_index(&fields, Some("z")), None);
    assert_eq!(anchor_field_index(&fields, None), None);
}

#[test]
fn layers_follow_the_longest_chain() {
    let nodes = vec![node(1, "Alpha"), node(2, "Beta"), node(3, "Gamma"), node(4, "Delta")];
    let edges = vec![edge(10, 1, 2), edge(11, 1, 3), edge(12, 2, 4), edge(13, 3, 4), edge(14, 1, 4)];
    assert_eq!(assign_layers(&nodes, &edges), vec![0, 1, 1, 2]);
    assert_eq!(layer_grid(&nodes, &edges), vec![vec![1], vec![2, 3], vec![4]]);
}

#[test]
fn cycles_fall_back_to_node_order() {
    let nodes = vec![node(10, "x"), node(11, "y"), node(12, "z")];
    let edges = vec![edge(1, 10, 11), edge(2, 11, 10), edge(3, 10, 12)];
    assert_eq!(assign_layers(&nodes, &edges), vec![0, 1, 1]);
    assert_eq!(layer_grid(&nodes, &edges), vec![vec![10], vec![11, 12]]);
}

#[test]
fn downstream_of_a_cycle_follows_placed_predecessors() {
    let nodes = vec![node(1, "root"), node(2, "p"), node(3, "q")];
    let edges = vec![edge(1, 1, 2), edge(2, 2, 3), edge(3, 3, 2)];
    assert_eq!(assign_layers(&nodes, &edges), vec![0, 1, 2]);
}

#[test]
fn barycenters_pull_related_nodes_level() {
    let nodes = vec![node(1, "a"), node(2, "b"), node(3, "c"), node(4, "d")];
    let edges = vec![edge(1, 1, 4), edge(2, 2, 3)];
    assert_eq!(layer_grid(&nodes, &edges), vec![vec![1, 2], vec![4, 3]]);
}

#[test]
fn ignores_self_relations_and_unknown_ends() {
    let nodes = vec![node(1, "a"), node(2, "b")];
    let edges = vec![edge(1, 1, 1), edge(2, 1, 99), edge(3, 1, 2)];
    assert_eq!(assign_layers(&nodes, &edges), vec![0, 1]);
    assert_eq!(drawn_edge_indices(&nodes, &edges), vec![0, 2]);
    assert!(layer_grid(&Vec::new(), &edges).is_empty());
}
