use galec::collections::graph::Graph;
use galec::data::mlr_ast::{BinOpType, Name, Node};
use galec::utils::graphviz::{print_as_graphviz, render, sorted_edges, EdgeLabels};

#[test]
fn edges_are_written_in_ascending_order() {
    let mut g = Graph::new();
    g.new_edge(2, 1);
    g.new_edge(0, 10);
    g.new_edge(0, 9);
    g.new_edge(2, 0);
    g.new_edge(1, 4294967295);
    assert_eq!(sorted_edges(&g), vec![(0, 9), (0, 10), (1, 4294967295), (2, 0), (2, 1)]);
    assert_eq!(sorted_edges(&Graph::new()), Vec::<(u32, u32)>::new());
}

#[test]
fn a_graph_is_written_edge_by_edge() {
    let mut g = Graph::new();
    g.new_edge(1, 0);
    g.new_edge(0, 2);
    let text = print_as_graphviz(
        &g,
        |v| format!("n{}", v),
        |e| format!("{}>{}", e.0, e.1),
    );
    assert_eq!(
        text,
        "digraph G {\n  \"0 n0\" -> \"2 n2\" [ label=\"0>2\" ];\n  \"1 n1\" -> \"0 n0\" [ label=\"1>0\" ];\n}\n"
    );
}

#[test]
fn a_graph_without_edges_is_an_empty_drawing() {
    let mut g = Graph::new();
    g.new_vertex();
    let text = print_as_graphviz(&g, |_| String::from("x"), |_| String::new());
    assert_eq!(text, "digraph G {\n}\n");
}

#[test]
fn lines_carry_the_labels_they_are_given() {
    let edges = vec![(7, 8)];
    let labels = vec![EdgeLabels {
        from: "a".to_string(),
        to: "".to_string(),
        edge: " =".to_string(),
    }];
    assert_eq!(
        render(&edges, &labels),
        "digraph G {\n  \"7 a\" -> \"8 \" [ label=\" =\" ];\n}\n"
    );
}

#[test]
fn nodes_are_labelled_by_their_kind() {
    assert_eq!(Node::from_let(1, 2, 3).label(), "Let");
    assert_eq!(Node::from_seq(Vec::new()).label(), "Seq");
    assert_eq!(Node::from_id(Name::from_str("x")).label(), "Id(x)");
    assert_eq!(Node::from_binop(1, 2, BinOpType::Plus).label(), "+");
    assert_eq!(Node::from_binop(1, 2, BinOpType::Mult).label(), "*");
    assert_eq!(Node::from_binop(1, 2, BinOpType::ArrIndex).label(), "!!");
    assert_eq!(Node::from_num(-12).label(), "-12");
    assert_eq!(Node::from_bool(true).label(), "true");
    assert_eq!(Node::from_bool(false).label(), "false");
    assert_eq!(Node::from_text("some text".to_string()).label(), "some text");
    assert_eq!(Node::from_apply(1, 2).label(), "Call");
    assert_eq!(Node::from_tuple(Vec::new()).label(), "Tuple");
    assert_eq!(Node::from_array(Vec::new()).label(), "Array");
    assert_eq!(Node::from_file(Vec::new()).label(), "File");
    assert_eq!(Node::from_gale_fn(1, Vec::new(), 2).label(), "Fn");
    assert_eq!(Node::from_sum_type(Vec::new()).label(), "SumType");
    assert_eq!(Node::from_product_type(Vec::new()).label(), "ProductType");
    assert_eq!(Node::from_type_id(Name::from_str("ui8")).label(), "TypeId(ui8)");
    assert_eq!(Node::from_function_type(1, 2).label(), "FnType");
    assert_eq!(Node::from_array_type(1, 2).label(), "ArrayType");
    assert_eq!(Node::from_unit_type().label(), "UnitType");
    assert_eq!(Name::new().text, "");
}
