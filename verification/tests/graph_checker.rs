use galec::collections::flat_tree::FlatTree;
use galec::collections::graph::{Edge, EdgeIterator, Graph, VertexIterator};
use galec::data::hlr_ast;
use galec::data::mlr_ast::{Node, Tree};
use galec::graph_checker::{
    gen_node_graph, gen_scope_graph, gen_type_dependencies, solve_type_dependencies, DependencyType,
};
use galec::lowerer::lower;
use galec::parser::parse;
use galec::tokenizer::tokenize;

fn program(code: &str) -> Tree {
    let tree = match parse(&tokenize(&code.to_string())) {
        Ok(t) => t,
        Err(f) => panic!("{}", f.message),
    };
    match lower(&tree) {
        Ok(t) => t,
        Err(f) => panic!("{}", f.message),
    }
}

fn statement(code: &str) -> Tree {
    let tree = match parse(&tokenize(&format!("{};", code))) {
        Ok(hlr_ast::Tree::File(mut f)) => f.statements.remove(0),
        Ok(other) => panic!("expected a file, got {:?}", other),
        Err(f) => panic!("{}", f.message),
    };
    match lower(&tree) {
        Ok(t) => t,
        Err(f) => panic!("{}", f.message),
    }
}

fn vertices(g: &Graph) -> Vec<u32> {
    let mut it = VertexIterator::new(g);
    let mut r = Vec::new();
    while let Some(v) = it.next() {
        r.push(v);
    }
    r
}

fn edges(g: &Graph) -> Vec<Edge> {
    let mut it = EdgeIterator::new(g);
    let mut r = Vec::new();
    while let Some(e) = it.next() {
        r.push(e);
    }
    r
}

#[test]
fn the_node_graph_mirrors_the_tree() {
    let t = statement("let x : ui8 = 1 + 2");
    let g = gen_node_graph(&t);
    assert_eq!(vertices(&g), vec![0, 1, 2, 3, 4, 5]);
    assert_eq!(edges(&g), vec![(0, 1), (0, 2), (0, 3), (3, 4), (3, 5)]);
    assert_eq!(g.vertex_count(), t.len());
}

#[test]
fn the_node_graph_leaves_out_what_was_deleted() {
    let mut t = statement("(1, (2, 3), 4)");
    t.delete_node(2);
    let g = gen_node_graph(&t);
    assert_eq!(vertices(&g), vec![0, 1, 5]);
    assert_eq!(edges(&g), vec![(0, 1), (0, 5)]);
    let empty: Tree = FlatTree::new_empty();
    let g = gen_node_graph(&empty);
    assert_eq!(g.vertex_count(), 0);
    assert_eq!(g.edge_count(), 0);
}

#[test]
fn a_file_a_function_and_a_block_make_three_scopes() {
    let t = program("let f : ui8 -> ui8 = \\x => { x; x };");
    let (g, scopes) = gen_scope_graph(&t);
    assert_eq!(g.vertex_count(), 3);
    assert_eq!(g.edge_count(), 2);
    let file = *scopes.get(0).unwrap();
    let function = *scopes.get(1).unwrap();
    let block = match t.get_node_value(1) {
        Some(Node::Function(galec::data::mlr_ast::Function::GaleFunction(f))) => f.implementation,
        other => panic!("expected a function, got {:?}", other),
    };
    assert!(matches!(t.get_node_value(block), Some(Node::Sequence(_))));
    let inner = *scopes.get(block as u32).unwrap();
    assert_eq!(vertices(&g), vec![0, 1, 2]);
    assert_eq!((file, function, inner), (0, 1, 2));
    assert_eq!(edges(&g), vec![(function, file), (inner, function)]);
}

#[test]
fn every_node_lies_in_the_scope_that_encloses_it() {
    let t = program("let f : ui8 -> ui8 = \\x => { x; { 1; x } }; let g : ui8 -> ui8 = \\y => y;");
    let (g, scopes) = gen_scope_graph(&t);
    let opens = |id: usize| {
        matches!(
            t.get_node_value(id),
            Some(Node::File(_)) | Some(Node::Function(_)) | Some(Node::Sequence(_))
        )
    };
    let mut opened = Vec::new();
    for id in 0..t.len() {
        let scope = *scopes.get(id as u32).expect("every node has a scope");
        let outer = *scopes.get(t.get_parent(id) as u32).unwrap();
        if opens(id) {
            assert!(!opened.contains(&scope));
            opened.push(scope);
            if id != 0 {
                assert!(edges(&g).contains(&(scope, outer)));
            }
        } else {
            assert_eq!(scope, outer);
        }
    }
    assert_eq!(g.vertex_count(), 5);
    assert_eq!(g.edge_count(), 4);
    opened.sort();
    assert_eq!(opened, vec![0, 1, 2, 3, 4]);
    assert_eq!(scopes.get(t.len() as u32), None);
}

#[test]
fn what_was_deleted_has_no_scope() {
    let mut t = program("let f : ui8 -> ui8 = \\x => { x; x }; let g : ui8 -> ui8 = \\y => y;");
    let second = t.get_children(0)[1];
    t.delete_node(second);
    let (g, scopes) = gen_scope_graph(&t);
    assert_eq!(g.vertex_count(), 3);
    assert_eq!(g.edge_count(), 2);
    assert_eq!(scopes.get(second as u32), None);
    assert!(scopes.get(1).is_some());
    let empty: Tree = FlatTree::new_empty();
    let (g, scopes) = gen_scope_graph(&empty);
    assert_eq!(g.vertex_count(), 0);
    assert_eq!(scopes.get(0), None);
}

#[test]
fn a_binding_ties_its_name_and_its_initializer_to_its_type() {
    let t = statement("let x : ui8 = 3");
    let g = gen_node_graph(&t);
    let (d, tags) = gen_type_dependencies(&g, &t);
    let (name, declared, initializer) = match t.get_node_value(0) {
        Some(Node::Let(l)) => (l.id as u32, l.exp_type as u32, l.exp as u32),
        other => panic!("expected a let, got {:?}", other),
    };
    assert_eq!(vertices(&d), vertices(&g));
    assert_eq!(edges(&d), vec![(initializer, declared), (name, declared)]);
    assert_eq!(tags.get((initializer, declared)), Some(&DependencyType::Equal));
    assert_eq!(tags.get((name, declared)), Some(&DependencyType::Equal));
    assert_eq!(tags.get((declared, name)), None);
}

#[test]
fn the_dependencies_of_a_file_are_those_of_its_statements() {
    let t = program("let x : ui8 = 3;");
    let g = gen_node_graph(&t);
    let (d, tags) = gen_type_dependencies(&g, &t);
    let (name, declared, initializer) = match t.get_node_value(1) {
        Some(Node::Let(l)) => (l.id as u32, l.exp_type as u32, l.exp as u32),
        other => panic!("expected a let, got {:?}", other),
    };
    assert_eq!((name, declared, initializer), (2, 3, 4));
    assert_eq!(edges(&d), vec![(initializer, declared), (name, declared)]);
    assert_eq!(tags.get((initializer, declared)), Some(&DependencyType::Equal));
    assert_eq!(tags.get((name, declared)), Some(&DependencyType::Equal));
    let (s, scopes) = gen_scope_graph(&t);
    assert_eq!(s.vertex_count(), 1);
    assert_eq!(s.edge_count(), 0);
    for id in 0..t.len() {
        assert_eq!(scopes.get(id as u32), Some(&0));
    }
}

#[test]
fn arrays_and_array_types_tie_their_elements_to_themselves() {
    let t = statement("let a : [ui8; 2] = [1, 2]");
    let g = gen_node_graph(&t);
    let (d, tags) = gen_type_dependencies(&g, &t);
    assert_eq!(edges(&d), vec![(4, 2), (1, 2), (2, 3), (5, 4), (6, 4)]);
    assert_eq!(tags.get((4, 2)), Some(&DependencyType::Equal));
    assert_eq!(tags.get((1, 2)), Some(&DependencyType::Equal));
    assert_eq!(tags.get((2, 3)), Some(&DependencyType::In));
    assert_eq!(tags.get((5, 4)), Some(&DependencyType::In));
    assert_eq!(tags.get((6, 4)), Some(&DependencyType::In));
}

#[test]
fn operations_and_applications_tie_their_parts() {
    let t = statement("f (a + b)");
    let g = gen_node_graph(&t);
    let (d, tags) = gen_type_dependencies(&g, &t);
    assert_eq!(edges(&d), vec![(0, 1), (4, 3), (3, 4)]);
    assert_eq!(tags.get((0, 1)), Some(&DependencyType::Equal));
    assert_eq!(tags.get((4, 3)), None);
    assert_eq!(tags.get((3, 4)), None);

    let t = statement("a !! i");
    let g = gen_node_graph(&t);
    let (d, tags) = gen_type_dependencies(&g, &t);
    assert_eq!(edges(&d), vec![(2, 1)]);
    assert_eq!(tags.get((2, 1)), None);
}

#[test]
fn a_vertex_without_a_live_node_has_no_dependencies() {
    let t = statement("let x : ui8 = 3");
    let mut g = Graph::new();
    g.make_vertex(0);
    g.make_vertex(40);
    let (d, _) = gen_type_dependencies(&g, &t);
    assert_eq!(vertices(&d), vec![0, 40]);
    assert_eq!(edges(&d), vec![(3, 2), (1, 2)]);
}

#[test]
fn dependencies_are_drawn_with_their_signs() {
    assert_eq!(DependencyType::Equal.symbol(), "=");
    assert_eq!(DependencyType::In.symbol(), "\u{2208}");
}

#[test]
fn solving_resolves_nothing_yet() {
    let t = statement("let x : ui8 = 3");
    let g = gen_node_graph(&t);
    let (d, tags) = gen_type_dependencies(&g, &t);
    let solved = solve_type_dependencies(&d, &tags);
    for v in 0..4 {
        assert!(solved.get(v).is_none());
    }
}
