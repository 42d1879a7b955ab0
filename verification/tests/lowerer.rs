use galec::collections::flat_tree::{error_id, root_id, RandomFlatTreeIterator};
use galec::data::hlr_ast;
use galec::data::mlr_ast::{BinOpType, Function, Node, Tree};
use galec::lowerer::{lower, lower_op_type, map_to_id_value, map_to_value};
use galec::parser::parse;
use galec::tokenizer::tokenize;

fn program(code: &str) -> hlr_ast::Tree {
    match parse(&tokenize(&code.to_string())) {
        Ok(t) => t,
        Err(f) => panic!("{}", f.message),
    }
}

fn statement(code: &str) -> hlr_ast::Tree {
    match program(&format!("{};", code)) {
        hlr_ast::Tree::File(mut f) => {
            assert_eq!(f.statements.len(), 1);
            f.statements.remove(0)
        }
        other => panic!("expected a file, got {:?}", other),
    }
}

fn lowered(code: &str) -> Tree {
    match lower(&statement(code)) {
        Ok(t) => t,
        Err(f) => panic!("{}", f.message),
    }
}

fn failure(t: &hlr_ast::Tree) -> String {
    match lower(t) {
        Ok(_) => panic!("expected a failure"),
        Err(f) => f.message,
    }
}

fn node(t: &Tree, id: usize) -> &Node {
    t.get_node_value(id).expect("the node is live")
}

fn name(t: &Tree, id: usize) -> &str {
    match node(t, id) {
        Node::Identifier(i) => i.name.text.as_str(),
        Node::IdentifierType(i) => i.name.text.as_str(),
        other => panic!("expected a name, got {:?}", other),
    }
}

fn no_placeholder_is_left(t: &Tree) {
    let mut it = RandomFlatTreeIterator::new(t);
    while let Some((_, n)) = it.next() {
        let children: Vec<usize> = match n {
            Node::File(f) => f.functions.clone(),
            Node::Let(l) => vec![l.id, l.exp_type, l.exp],
            Node::Sequence(s) => s.elements.clone(),
            Node::BinOp(b) => vec![b.lhs, b.rhs],
            Node::Tuple(x) => x.elements.clone(),
            Node::Array(x) => x.elements.clone(),
            Node::Function(Function::GaleFunction(g)) => {
                let mut c = g.parameters.clone();
                c.push(g.name);
                c.push(g.implementation);
                c
            }
            Node::Apply(a) => vec![a.fn_name, a.param],
            Node::SumType(x) => x.options.clone(),
            Node::ProductType(x) => x.elements.clone(),
            Node::FunctionType(f) => vec![f.from, f.to],
            Node::ArrayType(a) => vec![a.value_type],
            _ => Vec::new(),
        };
        for c in children {
            assert_ne!(c, error_id);
            assert!(c < t.len());
        }
    }
}

#[test]
fn a_let_of_a_lambda_becomes_a_function() {
    let t = lowered("let f : ui8 -> ui8 = \\x => x + 1");
    match node(&t, root_id) {
        Node::Function(Function::GaleFunction(g)) => {
            assert_eq!(g.parameters.len(), 1);
            assert_eq!(name(&t, g.name), "f");
            assert_eq!(name(&t, g.parameters[0]), "x");
            assert!(matches!(node(&t, g.implementation), Node::BinOp(b) if matches!(b.op_type, BinOpType::Plus)));
            assert_eq!((g.name, g.implementation, g.parameters[0]), (1, 5, 8));
        }
        other => panic!("expected a function, got {:?}", other),
    }
    assert_eq!(t.len(), 9);
    assert!(matches!(node(&t, 2), Node::FunctionType(f) if f.from == 3 && f.to == 4));
    for id in 1..t.len() {
        let parent = t.get_parent(id);
        assert_eq!(parent, if id == 3 || id == 4 { 2 } else if id == 6 || id == 7 { 5 } else { 0 });
    }
    no_placeholder_is_left(&t);
}

#[test]
fn a_function_has_one_parameter_for_each_of_the_lambda() {
    let t = lowered("let f : (ui8, ui8, ui8) -> ui8 = \\(a, b, c) => b");
    match node(&t, root_id) {
        Node::Function(Function::GaleFunction(g)) => {
            let names: Vec<&str> = g.parameters.iter().map(|p| name(&t, *p)).collect();
            assert_eq!(names, vec!["a", "b", "c"]);
            assert_eq!(name(&t, g.implementation), "b");
        }
        other => panic!("expected a function, got {:?}", other),
    }
    let none = lowered("let f : () -> ui8 = \\() => 1");
    assert!(matches!(node(&none, root_id), Node::Function(Function::GaleFunction(g)) if g.parameters.is_empty()));
    no_placeholder_is_left(&t);
}

#[test]
fn any_other_let_has_three_children() {
    let t = lowered("let x : ui8 = 3");
    match node(&t, root_id) {
        Node::Let(l) => {
            assert_eq!((l.id, l.exp_type, l.exp), (1, 2, 3));
            assert_eq!(name(&t, l.id), "x");
            assert_eq!(name(&t, l.exp_type), "ui8");
            assert!(matches!(node(&t, l.exp), Node::Number(n) if n.value == 3));
        }
        other => panic!("expected a let, got {:?}", other),
    }
    assert_eq!(t.get_children(root_id), vec![1, 2, 3]);
    assert_eq!(t.len(), 4);
}

#[test]
fn operations_keep_their_operator_and_their_sides() {
    let t = lowered("1 * 2 + x");
    match node(&t, root_id) {
        Node::BinOp(b) => {
            assert!(matches!(b.op_type, BinOpType::Mult));
            assert!(matches!(node(&t, b.lhs), Node::Number(n) if n.value == 1));
            match node(&t, b.rhs) {
                Node::BinOp(inner) => {
                    assert!(matches!(inner.op_type, BinOpType::Plus));
                    assert!(matches!(node(&t, inner.lhs), Node::Number(n) if n.value == 2));
                    assert_eq!(name(&t, inner.rhs), "x");
                    assert_eq!(t.get_parent(inner.lhs), b.rhs);
                    assert_eq!(t.get_parent(inner.rhs), b.rhs);
                }
                other => panic!("expected an operation, got {:?}", other),
            }
            assert_eq!(t.get_parent(b.lhs), root_id);
            assert_eq!(t.get_parent(b.rhs), root_id);
        }
        other => panic!("expected an operation, got {:?}", other),
    }
    assert!(matches!(node(&lowered("a !! 1"), root_id), Node::BinOp(b) if matches!(b.op_type, BinOpType::ArrIndex)));
    no_placeholder_is_left(&t);
}

#[test]
fn operators_are_carried_over() {
    assert!(matches!(lower_op_type(hlr_ast::BinOpType::Mult), BinOpType::Mult));
    assert!(matches!(lower_op_type(hlr_ast::BinOpType::Plus), BinOpType::Plus));
    assert!(matches!(lower_op_type(hlr_ast::BinOpType::ArrIndex), BinOpType::ArrIndex));
}

#[test]
fn a_block_becomes_a_sequence_of_its_statements() {
    let t = lowered("{ let x : ui8 = 1; x; 2 }");
    match node(&t, root_id) {
        Node::Sequence(s) => {
            assert_eq!(s.elements.len(), 3);
            assert!(matches!(node(&t, s.elements[0]), Node::Let(_)));
            assert_eq!(name(&t, s.elements[1]), "x");
            assert!(matches!(node(&t, s.elements[2]), Node::Number(n) if n.value == 2));
            assert_eq!(t.get_children(root_id), s.elements);
        }
        other => panic!("expected a sequence, got {:?}", other),
    }
    let empty = lowered("{}");
    assert!(matches!(node(&empty, root_id), Node::Sequence(s) if s.elements.is_empty()));
    no_placeholder_is_left(&t);
}

#[test]
fn tuples_and_arrays_keep_their_members_in_order() {
    let t = lowered("(1, \"a\", [10, 20])");
    match node(&t, root_id) {
        Node::Tuple(x) => {
            assert_eq!(x.elements, vec![1, 2, 3]);
            assert!(matches!(node(&t, 1), Node::Number(n) if n.value == 1));
            assert!(matches!(node(&t, 2), Node::Text(s) if s.text == "a"));
            match node(&t, 3) {
                Node::Array(a) => {
                    assert_eq!(a.elements, vec![4, 5]);
                    assert!(matches!(node(&t, 4), Node::Number(n) if n.value == 10));
                    assert!(matches!(node(&t, 5), Node::Number(n) if n.value == 20));
                }
                other => panic!("expected an array, got {:?}", other),
            }
        }
        other => panic!("expected a tuple, got {:?}", other),
    }
    let truth = lower(&hlr_ast::Tree::Boolean(hlr_ast::Boolean::from(true))).ok().unwrap();
    assert!(matches!(node(&truth, root_id), Node::Boolean(b) if b.value));
}

#[test]
fn an_application_names_its_function() {
    let t = lowered("f (1, 2)");
    match node(&t, root_id) {
        Node::Apply(a) => {
            assert_eq!((a.fn_name, a.param), (1, 2));
            assert_eq!(name(&t, a.fn_name), "f");
            assert!(matches!(node(&t, a.param), Node::Tuple(x) if x.elements == vec![3, 4]));
        }
        other => panic!("expected an application, got {:?}", other),
    }
    assert_eq!(failure(&statement("(\\x => x * x) 5")), "Internal invariant violated: only a named function is applied");
    assert_eq!(failure(&statement("1 2")), "Internal invariant violated: only a named function is applied");
}

#[test]
fn a_lambda_on_its_own_is_not_lowered() {
    assert_eq!(
        failure(&statement("\\x => x")),
        "Internal invariant violated: a lambda is lowered only where a let binds it"
    );
    assert_eq!(
        failure(&statement("f (\\x => x)")),
        "Internal invariant violated: a lambda is lowered only where a let binds it"
    );
    assert_eq!(
        failure(&statement("[1, \\x => x]")),
        "Internal invariant violated: a lambda is lowered only where a let binds it"
    );
}

#[test]
fn type_nodes_are_kept_in_the_arena() {
    let t = lowered("let x : [ui8; 3] = y");
    assert!(matches!(node(&t, 2), Node::ArrayType(a) if a.value_type == 3 && a.length == 3));
    assert_eq!(name(&t, 3), "ui8");

    let t = lowered("let x : (ui8, string) -> ui8 | string = y");
    match node(&t, 2) {
        Node::SumType(s) => {
            assert_eq!(s.options.len(), 2);
            match node(&t, s.options[0]) {
                Node::FunctionType(f) => {
                    match node(&t, f.from) {
                        Node::ProductType(p) => {
                            let names: Vec<&str> = p.elements.iter().map(|e| name(&t, *e)).collect();
                            assert_eq!(names, vec!["ui8", "string"]);
                        }
                        other => panic!("expected a product type, got {:?}", other),
                    }
                    assert_eq!(name(&t, f.to), "ui8");
                }
                other => panic!("expected a function type, got {:?}", other),
            }
            assert_eq!(name(&t, s.options[1]), "string");
        }
        other => panic!("expected a sum type, got {:?}", other),
    }
    no_placeholder_is_left(&t);

    let unit = lower(&hlr_ast::Tree::UnitType).ok().unwrap();
    assert!(matches!(node(&unit, root_id), Node::UnitType));
}

#[test]
fn a_file_lists_its_functions() {
    let t = match lower(&program("let f : ui8 -> ui8 = \\x => x; let main : ui8 -> ui8 = \\y => f y;")) {
        Ok(t) => t,
        Err(f) => panic!("{}", f.message),
    };
    match node(&t, root_id) {
        Node::File(f) => {
            assert_eq!(f.functions.len(), 2);
            assert_eq!(t.get_children(root_id), f.functions);
            for id in f.functions.iter() {
                assert!(matches!(node(&t, *id), Node::Function(Function::GaleFunction(_))));
            }
        }
        other => panic!("expected a file, got {:?}", other),
    }
    no_placeholder_is_left(&t);
    let empty = lower(&program("")).ok().unwrap();
    assert!(matches!(node(&empty, root_id), Node::File(f) if f.functions.is_empty()));
    assert_eq!(empty.len(), 1);
}

#[test]
fn a_file_lists_whatever_its_statements_become() {
    let t = match lower(&program("let x : ui8 = 3; let f : ui8 -> ui8 = \\x => x; 1;")) {
        Ok(t) => t,
        Err(f) => panic!("{}", f.message),
    };
    match node(&t, root_id) {
        Node::File(f) => {
            assert_eq!(f.functions.len(), 3);
            assert_eq!(t.get_children(root_id), f.functions);
            assert!(matches!(node(&t, f.functions[0]), Node::Let(_)));
            assert!(matches!(node(&t, f.functions[1]), Node::Function(_)));
            assert!(matches!(node(&t, f.functions[2]), Node::Number(_)));
        }
        other => panic!("expected a file, got {:?}", other),
    }
    no_placeholder_is_left(&t);
}

#[test]
fn a_node_is_found_behind_its_identity() {
    let mut t = lowered("(1, 2)");
    assert!(matches!(map_to_value(Some(1), &t), Some(Node::Number(n)) if n.value == 1));
    assert!(matches!(map_to_id_value(Some(2), &t), Some((2, Node::Number(n))) if n.value == 2));
    assert!(map_to_value(None, &t).is_none());
    assert!(map_to_id_value(None, &t).is_none());
    t.delete_node(1);
    assert!(map_to_value(Some(1), &t).is_none());
    assert!(map_to_id_value(Some(1), &t).is_none());
    assert!(map_to_value(Some(2), &t).is_some());
}
