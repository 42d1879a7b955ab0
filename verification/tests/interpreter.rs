use galec::collections::flat_tree::FlatTree;
use galec::collections::name_map::NameMap;
use galec::data::mlr_ast::{BinOpType, Function, Name, NativeImplementation, Node, Tree};
use galec::data::values::Value;
use galec::interpreter::{
    add_function, bind, interpret, interpret_id, operate, run, Environment, Failure, Program,
    DEFAULT_DEPTH,
};
use galec::lowerer::lower;
use galec::parser::parse;
use galec::tokenizer::tokenize;

fn program(code: &str) -> Tree {
    let tree = match parse(&tokenize(&code.to_string())) {
        Ok(t) => t,
        Err(f) => panic!("{}", f.message),
    };
    match lower(&tree) {
        Ok(t) => t,
        Err(f) => panic!("{}", f.message),
    }
}

fn main_of(body: &str) -> Tree {
    program(&format!("let main : ui8 -> ui8 = \\seed => {};", body))
}

fn value(body: &str) -> Value {
    match interpret(main_of(body)) {
        Ok(v) => v,
        Err(f) => panic!("{}", f.message),
    }
}

fn shown(body: &str) -> String {
    value(body).to_text()
}

fn failure(body: &str) -> String {
    match interpret(main_of(body)) {
        Ok(v) => panic!("expected a failure, got {:?}", v),
        Err(f) => f.message,
    }
}

fn failure_of(t: Tree) -> String {
    match interpret(t) {
        Ok(v) => panic!("expected a failure, got {:?}", v),
        Err(f) => f.message,
    }
}

fn printed(code: &str) -> String {
    let r = run(program(code), NameMap::new(), DEFAULT_DEPTH);
    match r.result {
        Ok(_) => r.output,
        Err(f) => panic!("{}", f.message),
    }
}

#[test]
fn main_computes_the_square_of_five() {
    let t = program("let square : ui8 -> ui8 = \\x => x * x; let main : ui8 -> ui8 = \\y => square 5;");
    assert!(matches!(interpret(t), Ok(Value::Number(n)) if n.value == 25));
}

#[test]
fn the_parameters_of_main_hold_three() {
    assert!(matches!(value("seed"), Value::Number(n) if n.value == 3));
    assert_eq!(shown("seed * seed + seed"), "18");
    let two = program("let main : (ui8, ui8) -> ui8 = \\(a, b) => (a, b);");
    assert!(matches!(interpret(two), Ok(Value::Tuple(t)) if t.elements.len() == 2
        && matches!(&t.elements[0], Value::Number(n) if n.value == 3)
        && matches!(&t.elements[1], Value::Number(n) if n.value == 3)));
}

#[test]
fn an_index_picks_the_element_at_its_place() {
    assert!(matches!(value("[10, 20, 30] !! 1"), Value::Number(n) if n.value == 20));
    assert_eq!(shown("[10, 20, 30] !! 0"), "10");
    assert_eq!(shown("[10, 20, 30] !! 2"), "30");
}

#[test]
fn an_index_outside_the_array_is_a_failure() {
    assert_eq!(failure("[10, 20, 30] !! 5"), "Internal invariant violated: array index out of bounds");
    assert_eq!(failure("[10, 20, 30] !! 3"), "Internal invariant violated: array index out of bounds");
    assert_eq!(failure("[] !! 0"), "Internal invariant violated: array index out of bounds");
    let negative = operate(
        BinOpType::ArrIndex,
        Value::from_array(vec![Value::from_num(1)]),
        Value::from_num(-1),
    );
    assert!(matches!(negative, Err(f) if f.message == "Internal invariant violated: array index out of bounds"));
}

#[test]
fn a_program_without_main_fails() {
    assert_eq!(failure_of(program("let f : ui8 -> ui8 = \\x => x;")), "No main");
    assert_eq!(failure_of(program("")), "No main");
}

#[test]
fn a_file_runs_functions_only() {
    let message = "Internal invariant violated: expected top level node to be a function";
    assert_eq!(failure_of(program("let x : ui8 = 3;")), message);
    assert_eq!(
        failure_of(program("let main : ui8 -> ui8 = \\s => 1; let x : ui8 = 3;")),
        message
    );
    assert_eq!(failure_of(program("let main : ui8 -> ui8 = \\s => 1; 2;")), message);
}

#[test]
fn the_root_has_to_be_a_file() {
    let empty: Tree = FlatTree::new_empty();
    assert_eq!(failure_of(empty), "Internal invariant violated: expected the root of the program to be a file");
    let number: Tree = FlatTree::new_with_root(Node::from_num(1));
    assert_eq!(failure_of(number), "Internal invariant violated: expected the root of the program to be a file");
    let mut dead: Tree = FlatTree::new_with_root(Node::from_file(Vec::new()));
    dead.delete_node(0);
    assert_eq!(failure_of(dead), "Internal invariant violated: expected the root of the program to be a file");
}

#[test]
fn a_file_lists_functions_with_names() {
    let mut t: Tree = FlatTree::new_with_root(Node::from_file(vec![1]));
    t.new_node(Node::from_num(1), 0);
    assert_eq!(failure_of(t), "Internal invariant violated: expected top level node to be a function");

    let mut t: Tree = FlatTree::new_with_root(Node::from_file(vec![7]));
    t.new_node(Node::from_num(1), 0);
    assert_eq!(failure_of(t), "Internal invariant violated: expected top level node to be a function");

    let mut t: Tree = FlatTree::new_with_root(Node::from_file(vec![1]));
    t.new_node(Node::from_gale_fn(2, Vec::new(), 2), 0);
    t.new_node(Node::from_num(1), 1);
    assert_eq!(failure_of(t), "Internal invariant violated: expected function name to be an identifier");
}

#[test]
fn literals_are_their_own_values() {
    assert_eq!(shown("42"), "42");
    assert_eq!(shown("\"hello\""), "hello");
    assert!(matches!(value("\"hello\""), Value::Text(t) if t.text == "hello"));
    assert_eq!(shown("(1, \"a\")"), "(1a)");
    assert!(matches!(value("()"), Value::Tuple(t) if t.elements.is_empty()));
    assert_eq!(shown("[1, 2, 3]"), "[123]");
    let mut t: Tree = FlatTree::new_with_root(Node::from_bool(true));
    t.new_node(Node::from_bool(false), 0);
    let p = Program::new(t);
    let mut env = Environment::new();
    let mut out = String::new();
    assert!(matches!(interpret_id(0, &p, &mut env, &mut out, 5), Ok(Value::Boolean(b)) if b.value));
    assert!(matches!(interpret_id(1, &p, &mut env, &mut out, 5), Ok(Value::Boolean(b)) if !b.value));
}

#[test]
fn sums_and_products_are_computed() {
    assert_eq!(shown("2 + 3"), "5");
    assert_eq!(shown("2 * 3"), "6");
    assert_eq!(shown("2 * 3 + 4"), "14");
    assert_eq!(shown("(2 * 3) + 4"), "10");
    assert_eq!(shown("0 * 9223372036854775807"), "0");
}

#[test]
fn a_result_that_does_not_fit_is_a_failure() {
    assert_eq!(failure("9223372036854775807 + 1"), "Arithmetic overflow");
    assert_eq!(failure("4611686018427387904 * 2"), "Arithmetic overflow");
    assert_eq!(shown("1 + 4611686018427387903 * 2"), "9223372036854775807");
    let low = operate(BinOpType::Plus, Value::from_num(i64::MIN), Value::from_num(-1));
    assert!(matches!(low, Err(f) if f.message == "Arithmetic overflow"));
    let least = operate(BinOpType::Mult, Value::from_num(i64::MIN), Value::from_num(1));
    assert!(matches!(least, Ok(Value::Number(n)) if n.value == i64::MIN));
    let wrapped = operate(BinOpType::Mult, Value::from_num(i64::MIN), Value::from_num(-1));
    assert!(matches!(wrapped, Err(f) if f.message == "Arithmetic overflow"));
}

#[test]
fn operands_of_the_wrong_kind_are_named() {
    assert_eq!(
        failure("1 + \"a\""),
        "Invalid binop nodes: Number(Number { value: 1 }), Text(Text { text: \"a\" })"
    );
    assert_eq!(
        failure("1 !! 0"),
        "Invalid binop nodes: Number(Number { value: 1 }), Number(Number { value: 0 })"
    );
    assert_eq!(
        failure("[1] !! \"a\""),
        "Invalid binop nodes: Array(Array { elements: [Number(Number { value: 1 })] }), Text(Text { text: \"a\" })"
    );
    assert_eq!(
        failure("[1] * 2"),
        "Invalid binop nodes: Array(Array { elements: [Number(Number { value: 1 })] }), Number(Number { value: 2 })"
    );
}

#[test]
fn a_binding_has_no_value_and_is_in_sight_afterwards() {
    assert!(matches!(value("{ 1; let x : ui8 = 5 }"), Value::Void));
    assert_eq!(shown("{ let x : ui8 = 5; x * x }"), "25");
    assert_eq!(shown("{ let x : ui8 = 5; let x : ui8 = x + 1; x }"), "6");
    assert_eq!(shown("{ let x : ui8 = 5; { let x : ui8 = 7; 0 }; x }"), "7");
}

#[test]
fn a_sequence_has_the_value_of_its_last_statement() {
    assert_eq!(shown("{ 1; 2; 3 }"), "3");
    assert_eq!(failure("{}"), "Expected seq to produce value");
    assert_eq!(failure("{ nope; 1 }"), "Could not find identifier nope");
}

#[test]
fn an_unknown_name_is_named_in_the_failure() {
    assert_eq!(failure("nope"), "Could not find identifier nope");
    assert_eq!(failure("nope 1"), "Could not find function nope");
    assert_eq!(failure("(1, nope)"), "Could not find identifier nope");
    assert_eq!(failure("[nope]"), "Could not find identifier nope");
    assert_eq!(failure("1 + nope"), "Could not find identifier nope");
}

#[test]
fn a_function_sees_its_parameters_and_nothing_else() {
    let t = program(
        "let f : ui8 -> ui8 = \\x => y; let main : ui8 -> ui8 = \\seed => { let y : ui8 = 1; f 2 };",
    );
    assert_eq!(failure_of(t), "Could not find identifier y");
    let t = program("let f : ui8 -> ui8 = \\x => seed; let main : ui8 -> ui8 = \\seed => f 2;");
    assert_eq!(failure_of(t), "Could not find identifier seed");
    let t = program(
        "let f : ui8 -> ui8 = \\x => { let y : ui8 = 9; x }; let main : ui8 -> ui8 = \\seed => { let y : ui8 = 1; f 2; y };",
    );
    assert!(matches!(interpret(t), Ok(Value::Number(n)) if n.value == 1));
}

#[test]
fn functions_are_values_by_name_in_main() {
    let t = program("let f : ui8 -> ui8 = \\x => x; let main : ui8 -> ui8 = \\seed => f;");
    assert!(matches!(interpret(t), Ok(Value::Function(f)) if f.name == "f"));
    assert!(matches!(value("std.print"), Value::Function(f) if f.name == "std.print"));
    assert!(matches!(value("main"), Value::Function(f) if f.name == "main"));
}

#[test]
fn a_tuple_gives_each_parameter_its_member() {
    let t = program(
        "let f : (ui8, ui8) -> ui8 = \\(a, b) => b + a * 10; let main : ui8 -> ui8 = \\s => f (4, 2);",
    );
    assert!(matches!(interpret(t), Ok(Value::Number(n)) if n.value == 42));
    let t = program("let f : () -> ui8 = \\() => 7; let main : ui8 -> ui8 = \\s => f ();");
    assert!(matches!(interpret(t), Ok(Value::Number(n)) if n.value == 7));
}

#[test]
fn any_other_argument_goes_to_the_only_parameter() {
    let t = program("let f : ui8 -> ui8 = \\a => a; let main : ui8 -> ui8 = \\s => f [1, 2];");
    assert!(matches!(interpret(t), Ok(Value::Array(a)) if a.elements.len() == 2));
    let t = program("let f : ui8 -> ui8 = \\a => a; let main : ui8 -> ui8 = \\s => f \"x\";");
    assert!(matches!(interpret(t), Ok(Value::Text(x)) if x.text == "x"));
}

#[test]
fn a_tuple_of_one_member_is_passed_whole() {
    let names = || vec![Name::from_str("a")];
    let single = Value::from_tuple(vec![Value::from_num(1)]);
    let env = bind(names(), single).expect("one parameter takes the tuple");
    assert!(matches!(env.lookup(&Name::from_str("a")), Some(Value::Tuple(t)) if t.elements.len() == 1));
    let env = bind(names(), Value::from_num(1)).expect("one parameter takes the number");
    assert!(matches!(env.lookup(&Name::from_str("a")), Some(Value::Number(n)) if n.value == 1));
}

#[test]
fn a_wrong_number_of_arguments_fails_the_same_everywhere() {
    let one = || vec![Name::from_str("a")];
    let two = || vec![Name::from_str("a"), Name::from_str("b")];
    let single = || Value::from_tuple(vec![Value::from_num(1)]);
    let pair = || Value::from_tuple(vec![Value::from_num(1), Value::from_num(2)]);
    assert!(bind(two(), single()).is_none());
    assert!(bind(Vec::new(), single()).is_none());
    assert!(bind(two(), Value::from_num(1)).is_none());
    assert!(bind(Vec::new(), Value::from_num(1)).is_none());
    assert!(bind(one(), pair()).is_none());
    assert!(bind(one(), Value::from_tuple(Vec::new())).is_none());
    assert!(bind(Vec::new(), Value::from_tuple(Vec::new())).is_some());
    let env = bind(two(), pair()).expect("two parameters take the pair");
    assert!(matches!(env.lookup(&Name::from_str("a")), Some(Value::Number(n)) if n.value == 1));
    assert!(matches!(env.lookup(&Name::from_str("b")), Some(Value::Number(n)) if n.value == 2));

    let message = "Internal invariant violated: argument count does not match parameter count";
    let t = program("let f : (ui8, ui8) -> ui8 = \\(a, b) => a; let main : ui8 -> ui8 = \\s => f 1;");
    assert_eq!(failure_of(t), message);
    let t = program("let f : ui8 -> ui8 = \\a => a; let main : ui8 -> ui8 = \\s => f (1, 2);");
    assert_eq!(failure_of(t), message);
    let t = program("let f : () -> ui8 = \\() => 1; let main : ui8 -> ui8 = \\s => f 1;");
    assert_eq!(failure_of(t), message);
}

#[test]
fn what_is_printed_is_handed_back() {
    assert_eq!(printed("let main : ui8 -> ui8 = \\s => std.print \"hi\";"), "hi");
    assert_eq!(printed("let main : ui8 -> ui8 = \\s => std.println \"hi\";"), "hi\n");
    assert_eq!(
        printed("let main : ui8 -> ui8 = \\s => { std.print 1; std.println [2, 4]; std.print ((s)) };"),
        "1[24]\n3"
    );
    assert_eq!(printed("let main : ui8 -> ui8 = \\s => 1;"), "");
    let r = run(
        program("let main : ui8 -> ui8 = \\s => { std.print \"a\"; nope };"),
        NameMap::new(),
        DEFAULT_DEPTH,
    );
    assert!(matches!(r.result, Err(f) if f.message == "Could not find identifier nope"));
    assert_eq!(r.output, "a");
    assert!(matches!(value("std.print 1"), Value::Void));
}

#[test]
fn a_value_is_converted_to_its_structural_text() {
    assert_eq!(shown("std.to_string 5"), "Number(Number { value: 5 })");
    assert_eq!(shown("std.to_string \"a\""), "Text(Text { text: \"a\" })");
    assert!(matches!(value("std.to_string 5"), Value::Text(_)));
}

#[test]
fn a_file_is_read_if_it_was_supplied() {
    let code = "let main : ui8 -> ui8 = \\s => std.read \"notes.txt\";";
    let mut files: NameMap<String> = NameMap::new();
    files.insert("other.txt".to_string(), "no".to_string());
    files.insert("notes.txt".to_string(), "remember".to_string());
    let r = run(program(code), files, DEFAULT_DEPTH);
    assert!(matches!(r.result, Ok(Value::Text(t)) if t.text == "remember"));

    let r = run(program(code), NameMap::new(), DEFAULT_DEPTH);
    match r.result {
        Err(Failure { message, wanted }) => {
            assert_eq!(message, "Could not read file notes.txt");
            assert_eq!(wanted, Some("notes.txt".to_string()));
        }
        Ok(v) => panic!("expected a failure, got {:?}", v),
    }
    match interpret(program(code)) {
        Err(f) => assert_eq!(f.wanted, Some("notes.txt".to_string())),
        Ok(v) => panic!("expected a failure, got {:?}", v),
    }
    assert_eq!(failure("std.read 1"), "Expected the path of a file to be a text");
    match interpret(main_of("nope")) {
        Err(f) => assert_eq!(f.wanted, None),
        Ok(v) => panic!("expected a failure, got {:?}", v),
    }
}

#[test]
fn a_native_function_needs_its_argument() {
    let p = Program::new(FlatTree::new_empty());
    let env = Environment::new();
    let mut out = String::new();
    let message = "Expected native function to be given its argument";
    assert!(matches!(galec::interpreter::print(&p, &env, &mut out), Err(f) if f.message == message));
    assert!(matches!(galec::interpreter::println(&p, &env, &mut out), Err(f) if f.message == message));
    assert!(matches!(galec::interpreter::read_file(&p, &env, &mut out), Err(f) if f.message == message));
    assert!(matches!(galec::interpreter::to_string(&p, &env, &mut out), Err(f) if f.message == message));
    assert_eq!(out, "");
    assert_eq!(
        failure("std.print (1, 2)"),
        "Internal invariant violated: argument count does not match parameter count"
    );
}

#[test]
fn evaluation_is_cut_off_at_the_given_depth() {
    let forever = "let f : ui8 -> ui8 = \\x => f x; let main : ui8 -> ui8 = \\s => f 1;";
    assert_eq!(failure_of(program(forever)), "Evaluation ran too deep");
    let r = run(program(forever), NameMap::new(), 10);
    assert!(matches!(r.result, Err(f) if f.message == "Evaluation ran too deep"));

    let shallow = "let main : ui8 -> ui8 = \\s => 1 + 2;";
    for depth in 0..3 {
        let r = run(program(shallow), NameMap::new(), depth);
        assert!(matches!(r.result, Err(f) if f.message == "Evaluation ran too deep"));
    }
    let r = run(program(shallow), NameMap::new(), 3);
    assert!(matches!(r.result, Ok(Value::Number(n)) if n.value == 3));
}

#[test]
fn a_node_that_points_at_itself_does_not_run_forever() {
    let mut t: Tree = FlatTree::new_with_root(Node::from_file(vec![1]));
    t.new_node(Node::from_gale_fn(2, Vec::new(), 3), 0);
    t.new_node(Node::from_id(Name::from_str("main")), 1);
    t.new_node(Node::from_binop(3, 3, BinOpType::Plus), 1);
    assert_eq!(failure_of(t), "Evaluation ran too deep");
}

#[test]
fn what_is_no_expression_cannot_be_interpreted() {
    let mut t: Tree = FlatTree::new_with_root(Node::from_file(vec![1]));
    t.new_node(Node::from_gale_fn(2, Vec::new(), 3), 0);
    t.new_node(Node::from_id(Name::from_str("main")), 1);
    t.new_node(Node::from_unit_type(), 1);
    assert_eq!(failure_of(t), "Cannot interpret this node");

    let mut t: Tree = FlatTree::new_with_root(Node::from_file(vec![1]));
    t.new_node(Node::from_gale_fn(2, Vec::new(), 9), 0);
    t.new_node(Node::from_id(Name::from_str("main")), 1);
    assert_eq!(failure_of(t), "Internal invariant violated: expected node to exist");

    let mut t: Tree = FlatTree::new_with_root(Node::from_file(vec![1]));
    t.new_node(Node::from_gale_fn(2, vec![3], 3), 0);
    t.new_node(Node::from_id(Name::from_str("main")), 1);
    t.new_node(Node::from_num(1), 1);
    assert_eq!(failure_of(t), "Internal invariant violated: expected parameter to be an identifier");
}

#[test]
fn the_program_and_the_environment_find_what_was_added() {
    let mut t: Tree = FlatTree::new_with_root(Node::from_id(Name::from_str("x")));
    t.new_node(Node::from_num(1), 0);
    let mut p = Program::new(t);
    let mut env = Environment::new();
    assert!(p.lookup(&Name::from_str("f")).is_none());
    assert!(env.lookup(&Name::from_str("f")).is_none());
    add_function(
        &mut p,
        &mut env,
        Name::from_str("f"),
        Function::new_native(
            Name::from_str("f"),
            vec![Name::from_str("in")],
            NativeImplementation::ToString,
        ),
    );
    assert!(matches!(p.lookup(&Name::from_str("f")), Some(Function::NativeFunction(n)) if n.name.text == "f"));
    assert!(matches!(env.lookup(&Name::from_str("f")), Some(Value::Function(f)) if f.name == "f"));
    env.extend(Name::from_str("f"), Value::from_num(1));
    assert!(matches!(env.lookup(&Name::from_str("f")), Some(Value::Number(_))));
    assert_eq!(p.get_name(0).map(|n| n.text.as_str()), Some("x"));
    assert!(p.get_name(1).is_none());
    assert!(p.get_name(2).is_none());
    assert!(matches!(p.get_node(1), Some(Node::Number(_))));
    assert!(p.get_node(2).is_none());
    assert!(p.get_file(&"a".to_string()).is_none());
}

#[test]
fn names_have_to_be_identifier_nodes() {
    let mut t: Tree = FlatTree::new_with_root(Node::from_file(vec![1]));
    t.new_node(Node::from_gale_fn(2, Vec::new(), 3), 0);
    t.new_node(Node::from_id(Name::from_str("main")), 1);
    t.new_node(Node::from_let(4, 4, 4), 1);
    t.new_node(Node::from_num(1), 3);
    assert_eq!(
        failure_of(t),
        "Internal invariant violated: expected let to bind an identifier"
    );

    let mut t: Tree = FlatTree::new_with_root(Node::from_file(vec![1]));
    t.new_node(Node::from_gale_fn(2, Vec::new(), 3), 0);
    t.new_node(Node::from_id(Name::from_str("main")), 1);
    t.new_node(Node::from_apply(4, 4), 1);
    t.new_node(Node::from_num(1), 3);
    assert_eq!(
        failure_of(t),
        "Internal invariant violated: expected function name to be an identifier"
    );
}

#[test]
fn main_has_to_be_a_function_of_the_program() {
    let t: Tree = FlatTree::new_with_root(Node::from_file(Vec::new()));
    let mut p = Program::new(t);
    let mut env = Environment::new();
    add_function(
        &mut p,
        &mut env,
        Name::from_str("main"),
        Function::new_native(
            Name::from_str("main"),
            vec![Name::from_str("in")],
            NativeImplementation::Print,
        ),
    );
    let mut out = String::new();
    match interpret_id(0, &p, &mut env, &mut out, 10) {
        Err(f) => assert_eq!(
            f.message,
            "Internal invariant violated: expected main to be a function of the program"
        ),
        Ok(v) => panic!("expected a failure, got {:?}", v),
    }
}
