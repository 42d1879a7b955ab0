use galec::collections::graph::{
    EdgeIterator, Graph, GraphEdgeProperty, GraphVertexProperty, VertexIterator,
};

#[test]
fn test_edge_iterator_single() {
    let mut g: Graph = Graph::new();
    let v1 = g.new_vertex();
    let v2 = g.new_vertex();
    let e1 = g.new_edge(v1, v2);

    assert_eq!(EdgeIterator::new(&g).next(), Some(e1));
}

#[test]
fn test_edge_iterator_multiple() {
    let mut g: Graph = Graph::new();
    let v1 = g.new_vertex();
    let v2 = g.new_vertex();
    let v3 = g.new_vertex();
    let e1 = g.new_edge(v1, v2);
    let e2 = g.new_edge(v2, v3);

    let mut it = EdgeIterator::new(&g);
    assert_eq!(it.next(), Some(e1));
    assert_eq!(it.next(), Some(e2));
}

#[test]
fn vertices_are_numbered_from_zero() {
    let mut g = Graph::new();
    assert_eq!(g.new_vertex(), 0);
    assert_eq!(g.new_vertex(), 1);
    assert_eq!(g.new_vertex(), 2);
    assert_eq!(g.vertex_count(), 3);
    assert_eq!(g.edge_count(), 0);
}

#[test]
fn a_made_vertex_moves_the_allocator_past_it() {
    let mut g = Graph::new();
    assert_eq!(g.next_vertex(), 0);
    assert!(g.make_vertex(5));
    assert!(!g.make_vertex(5));
    assert_eq!(g.vertex_count(), 1);
    assert_eq!(g.next_vertex(), 6);
    assert_eq!(g.new_vertex(), 6);
    assert!(g.make_vertex(2));
    assert_eq!(g.new_vertex(), 7);
    assert_eq!(g.vertex_count(), 4);
}

#[test]
fn making_the_next_vertex_does_not_hand_it_out_again() {
    let mut g = Graph::new();
    assert!(g.make_vertex(0));
    assert_eq!(g.new_vertex(), 1);
    assert_eq!(g.vertex_count(), 2);
}

#[test]
fn a_deleted_vertex_is_not_handed_out_again() {
    let mut g = Graph::new();
    let a = g.new_vertex();
    let b = g.new_vertex();
    g.new_edge(a, b);
    assert!(g.has_vertex(a));
    g.delete_vertex(a);
    assert!(!g.has_vertex(a));
    assert!(g.has_vertex(b));
    assert_eq!(g.vertex_count(), 1);
    assert_eq!(g.edge_count(), 1);
    assert_eq!(g.new_vertex(), 2);
    g.delete_vertex(9);
    assert_eq!(g.vertex_count(), 2);
    let mut it = VertexIterator::new(&g);
    assert_eq!(it.next(), Some(b));
    assert_eq!(it.next(), Some(2));
    assert_eq!(it.next(), None);
}

#[test]
fn an_edge_inserted_twice_is_there_once() {
    let mut g = Graph::new();
    assert!(!g.has_edge((3, 4)));
    assert_eq!(g.new_edge(3, 4), (3, 4));
    assert_eq!(g.new_edge(3, 4), (3, 4));
    assert!(g.has_edge((3, 4)));
    assert!(!g.has_edge((4, 3)));
    assert!(!g.has_vertex(3));
    assert_eq!(g.new_edge(4, 3), (4, 3));
    assert_eq!(g.edge_count(), 2);
    assert_eq!(g.vertex_count(), 0);
    let mut it = EdgeIterator::new(&g);
    assert_eq!(it.next(), Some((3, 4)));
    assert_eq!(it.next(), Some((4, 3)));
    assert_eq!(it.next(), None);
}

#[test]
fn a_vertex_property_is_found_until_it_is_deleted() {
    let mut p: GraphVertexProperty<i32> = GraphVertexProperty::new();
    assert_eq!(p.get(1), None);
    p.insert(1, 10);
    p.insert(2, 20);
    p.insert(1, 11);
    assert_eq!(p.get(1), Some(&11));
    assert_eq!(p.get(2), Some(&20));
    p.delete(1);
    p.delete(7);
    assert_eq!(p.get(1), None);
    assert_eq!(p.get(2), Some(&20));
}

#[test]
fn an_edge_property_is_found_under_its_own_edge_only() {
    let mut p: GraphEdgeProperty<i32> = GraphEdgeProperty::new();
    assert_eq!(p.get((1, 2)), None);
    p.insert((1, 2), 12);
    p.insert((2, 1), 21);
    p.insert((0, 4294967295), 3);
    p.insert((4294967295, 0), 4);
    assert_eq!(p.get((1, 2)), Some(&12));
    assert_eq!(p.get((2, 1)), Some(&21));
    assert_eq!(p.get((0, 4294967295)), Some(&3));
    assert_eq!(p.get((4294967295, 0)), Some(&4));
    assert_eq!(p.get((0, 0)), None);
    p.insert((1, 2), 13);
    assert_eq!(p.get((1, 2)), Some(&13));
    p.delete((1, 2));
    assert_eq!(p.get((1, 2)), None);
    assert_eq!(p.get((2, 1)), Some(&21));
}
