use galec::checker::{check, Constraints, Context};
use galec::data::hlr_ast::{
    Array, Block, FunctionType, Identifier, IdentifierType, Lambda, Let, Name, Number, Tree, Tuple,
};
use galec::data::types::{AtomTypeKind, Type};
use galec::parser::parse;
use galec::tokenizer::tokenize;

fn program(code: &str) -> Tree {
    match parse(&tokenize(&code.to_string())) {
        Ok(t) => t,
        Err(f) => panic!("{}", f.message),
    }
}

fn expression(code: &str) -> Tree {
    match program(&format!("{};", code)) {
        Tree::File(mut f) => {
            assert_eq!(f.statements.len(), 1);
            f.statements.remove(0)
        }
        other => panic!("expected a file, got {:?}", other),
    }
}

fn atom(kind: AtomTypeKind) -> Type {
    Type::from_atom(kind)
}

fn checks(code: &str) -> bool {
    check(&program(code)).is_ok()
}

fn failure(code: &str) -> String {
    match check(&program(code)) {
        Ok(t) => panic!("expected a failure, got {:?}", t),
        Err(f) => f.message,
    }
}

fn type_of(code: &str) -> Option<Type> {
    match check(&expression(code)) {
        Ok(t) => t,
        Err(f) => panic!("{}", f.message),
    }
}

fn failure_of(code: &str) -> String {
    match check(&expression(code)) {
        Ok(t) => panic!("expected a failure, got {:?}", t),
        Err(f) => f.message,
    }
}

fn under(t: &Tree, must_be: Type) -> Result<Option<Type>, String> {
    let mut ctx = Context::standard();
    t.check(&mut ctx, Some(Constraints::must_be(must_be))).map_err(|f| f.message)
}

#[test]
fn a_number_bound_as_ui8_is_a_ui8() {
    let tree = program("let x : ui8 = 3;");
    assert!(matches!(check(&tree), Ok(None)));
    let mut ctx = Context::standard();
    assert!(tree.check(&mut ctx, None).is_ok());
    assert_eq!(ctx.get_variable(&Name::from("x")), Some(atom(AtomTypeKind::UI8)));
    assert_eq!(ctx.get_variable(&Name::from("y")), None);
}

#[test]
fn a_number_bound_as_string_is_a_mismatch() {
    assert_eq!(failure("let x : string = 3;"), "Expected integer constraint");
}

#[test]
fn a_text_bound_as_ui8_is_a_mismatch() {
    assert_eq!(
        failure("let x : ui8 = \"a\";"),
        "Let type AtomType(AtomType { kind: UI8 }) does not match expression type AtomType(AtomType { kind: Text })"
    );
}

#[test]
fn an_empty_array_needs_to_be_told_its_type() {
    assert_eq!(
        failure_of("[]"),
        "Empty array requires type constraint to determine array type"
    );
    assert!(checks("let a : [ui8; 0] = [];"));
    let empty = Tree::Array(Array::from(Vec::new()));
    let asked = Type::from_array_type(atom(AtomTypeKind::UI8), 0);
    assert_eq!(under(&empty, asked.clone()), Ok(Some(asked)));
}

#[test]
fn an_empty_array_in_a_tuple_is_not_told_its_type() {
    assert_eq!(
        failure_of("([], 1)"),
        "Empty array requires type constraint to determine array type"
    );
}

#[test]
fn the_standard_context_knows_the_native_functions() {
    let ctx = Context::standard();
    let text = || atom(AtomTypeKind::Text);
    assert_eq!(
        ctx.get_variable(&Name::from("std.print")),
        Some(Type::from_function(text(), Type::UnitType))
    );
    assert_eq!(
        ctx.get_variable(&Name::from("std.println")),
        Some(Type::from_function(text(), Type::UnitType))
    );
    assert_eq!(
        ctx.get_variable(&Name::from("std.read")),
        Some(Type::from_function(text(), text()))
    );
    assert_eq!(
        ctx.get_variable(&Name::from("std.to_string")),
        Some(Type::from_function(atom(AtomTypeKind::UI8), text()))
    );
    assert_eq!(ctx.get_type(&Name::from("ui8")), Some(atom(AtomTypeKind::UI8)));
    assert_eq!(ctx.get_type(&Name::from("string")), Some(text()));
    assert_eq!(ctx.get_type(&Name::from("i64")), None);
    assert_eq!(ctx.get_variable(&Name::from("ui8")), None);
}

#[test]
fn a_context_finds_what_was_added_last() {
    let mut ctx = Context::new();
    assert_eq!(ctx.get_variable(&Name::from("x")), None);
    ctx.add_variable(Name::from("x"), atom(AtomTypeKind::UI8));
    ctx.add_type(Name::from("x"), atom(AtomTypeKind::Text));
    ctx.add_variable(Name::from("x"), atom(AtomTypeKind::I64));
    assert_eq!(ctx.get_variable(&Name::from("x")), Some(atom(AtomTypeKind::I64)));
    assert_eq!(ctx.get_type(&Name::from("x")), Some(atom(AtomTypeKind::Text)));
}

#[test]
fn literals_have_their_own_types() {
    assert_eq!(type_of("5"), Some(atom(AtomTypeKind::I64)));
    assert_eq!(type_of("\"a\""), Some(atom(AtomTypeKind::Text)));
    let truth = Tree::Boolean(galec::data::hlr_ast::Boolean::from(true));
    assert_eq!(check(&truth).ok(), Some(Some(atom(AtomTypeKind::Boolean))));
    assert_eq!(under(&truth, atom(AtomTypeKind::UI8)), Ok(Some(atom(AtomTypeKind::Boolean))));
}

#[test]
fn a_number_takes_the_integer_kind_asked_for() {
    let five = Tree::Number(Number::from(5));
    for kind in [AtomTypeKind::I64, AtomTypeKind::I8, AtomTypeKind::UI64, AtomTypeKind::UI8] {
        assert_eq!(under(&five, atom(kind)), Ok(Some(atom(kind))));
    }
    for asked in [
        atom(AtomTypeKind::Boolean),
        atom(AtomTypeKind::Text),
        Type::UnitType,
        Type::from_product(vec![]),
    ] {
        assert_eq!(under(&five, asked), Err("Expected integer constraint".to_string()));
    }
    let mut ctx = Context::standard();
    let placeholder = five.check(&mut ctx, Some(Constraints::new()));
    assert_eq!(placeholder.ok(), Some(Some(atom(AtomTypeKind::I64))));
}

#[test]
fn the_members_of_a_tuple_are_typed_on_their_own() {
    assert_eq!(
        type_of("(1, \"a\", 2)"),
        Some(Type::from_product(vec![
            atom(AtomTypeKind::I64),
            atom(AtomTypeKind::Text),
            atom(AtomTypeKind::I64)
        ]))
    );
    assert_eq!(type_of("()"), Some(Type::from_product(vec![])));
    let pair = Tree::Tuple(Tuple::from(vec![Tree::Number(Number::from(1))]));
    assert_eq!(
        under(&pair, atom(AtomTypeKind::UI8)),
        Ok(Some(Type::from_product(vec![atom(AtomTypeKind::I64)])))
    );
    assert_eq!(failure_of("(1, x)"), "Unknown variable x");
}

#[test]
fn the_items_of_an_array_have_to_agree() {
    assert_eq!(
        type_of("[10, 20, 30]"),
        Some(Type::from_array_type(atom(AtomTypeKind::I64), 3))
    );
    assert_eq!(failure_of("[1, \"a\"]"), "Array values must be of equal type");
    assert!(checks("let a : [ui8; 2] = [1, 2];"));
    assert_eq!(
        failure("let a : [ui8; 3] = [1, 2];"),
        "Let type ArrayType(ArrayType { value_type: AtomType(AtomType { kind: UI8 }), length: 3 }) does not match expression type ArrayType(ArrayType { value_type: AtomType(AtomType { kind: UI8 }), length: 2 })"
    );
    assert_eq!(
        failure("let a : ui8 = [1, 2];"),
        "Cannot satisfy non-array type constraint when checking array"
    );
    assert_eq!(failure("let a : [string; 1] = [1];"), "Expected integer constraint");
}

#[test]
fn the_last_statement_gives_a_block_its_type() {
    assert_eq!(type_of("{ 1; \"a\" }"), Some(atom(AtomTypeKind::Text)));
    assert_eq!(type_of("{ let x : ui8 = 1; x }"), Some(atom(AtomTypeKind::UI8)));
    assert!(checks("let y : ui8 = { \"a\"; 2 };"));
    assert_eq!(failure("let y : ui8 = { 2; \"a\" };"),
        "Let type AtomType(AtomType { kind: UI8 }) does not match expression type AtomType(AtomType { kind: Text })");
    let empty = Tree::Block(Block::from(Vec::new()));
    assert_eq!(
        check(&empty).err().map(|f| f.message),
        Some("Expected block.check to return type".to_string())
    );
    assert_eq!(failure_of("{ x; 1 }"), "Unknown variable x");
}

#[test]
fn an_identifier_has_the_type_it_was_bound_to() {
    assert!(checks("let x : ui8 = 3; let y : ui8 = x;"));
    assert_eq!(failure("let y : ui8 = x;"), "Unknown variable x");
    assert!(checks("let x : ui8 = x;"));
    assert_eq!(
        failure("let x : ui8 = 3; let y : string = x;"),
        "Let type AtomType(AtomType { kind: Text }) does not match expression type AtomType(AtomType { kind: UI8 })"
    );
}

#[test]
fn both_sides_of_an_operation_have_to_agree() {
    assert_eq!(type_of("1 + 2"), Some(atom(AtomTypeKind::I64)));
    assert_eq!(type_of("1 * 2 + 3"), Some(atom(AtomTypeKind::I64)));
    assert_eq!(failure_of("1 + \"a\""), "BinOp Types must be equal");
    assert!(checks("let x : ui8 = 1 + 2;"));
    assert!(checks("let x : ui8 = 3; let y : ui8 = x * 2;"));
    assert_eq!(failure("let x : string = \"a\" + 1;"), "Expected integer constraint");
    assert_eq!(failure_of("x + 1"), "Unknown variable x");
    assert_eq!(failure_of("1 + x"), "Unknown variable x");
}

#[test]
fn an_operand_without_a_type_is_a_failure() {
    let statement = |name: &str| {
        Tree::Let(Let {
            id: Identifier { name: Name::from(name) },
            exp_type: Box::new(Tree::IdentifierType(IdentifierType { name: Name::from("ui8") })),
            exp: Box::new(Tree::Number(Number::from(1))),
        })
    };
    let sum = |lhs: Tree, rhs: Tree| {
        Tree::BinOp(galec::data::hlr_ast::BinOp {
            lhs: Box::new(lhs),
            rhs: Box::new(rhs),
            op_type: galec::data::hlr_ast::BinOpType::Plus,
        })
    };
    let one = || Tree::Number(Number::from(1));
    assert_eq!(
        check(&sum(statement("a"), one())).err().map(|f| f.message),
        Some("Internal invariant violated: lhs of operation yields no type".to_string())
    );
    assert_eq!(
        check(&sum(one(), statement("a"))).err().map(|f| f.message),
        Some("Internal invariant violated: rhs of operation yields no type".to_string())
    );
}

#[test]
fn an_index_takes_an_array_and_has_its_element_type() {
    assert_eq!(type_of("[10, 20, 30] !! 1"), Some(atom(AtomTypeKind::I64)));
    assert_eq!(type_of("[\"a\"] !! 0"), Some(atom(AtomTypeKind::Text)));
    assert_eq!(
        failure_of("1 !! 0"),
        "Lhs of array index operation must have array type"
    );
    assert_eq!(failure_of("[1] !! (\\x => x)"), "Expected function constraint");
    assert_eq!(type_of("[1] !! []"), Some(atom(AtomTypeKind::I64)));
    assert_eq!(type_of("[1] !! \"a\""), Some(atom(AtomTypeKind::I64)));
    assert!(checks("let a : [ui8; 2] = [1, 2]; let x : ui8 = a !! 0;"));
    assert!(checks("let a : [ui8; 2] = [1, 2]; let i : ui8 = 0; let x : ui8 = a !! i;"));
    assert_eq!(failure_of("[1] !! x"), "Unknown variable x");
}

#[test]
fn a_lambda_has_the_function_type_it_is_asked_to_have() {
    assert!(checks("let f : ui8 -> ui8 = \\x => x;"));
    assert!(checks("let f : ui8 -> ui8 = \\x => x * x;"));
    assert!(checks("let f : ui8 -> ui8 = \\x => 1;"));
    assert!(checks("let f : (ui8, string) -> string = \\(a, b) => b;"));
    assert!(checks("let f : () -> ui8 = \\() => 1;"));
    assert!(checks("let f : ui8 -> ui8 = \\x => f x;"));
    assert_eq!(
        failure("let f : (ui8, string) -> string = \\a => a;"),
        "Product type constraint not the same length as function parameter list"
    );
    assert_eq!(
        failure("let f : ui8 -> ui8 = \\(a, b) => a;"),
        "Lambda has multiple parameters but single type was given"
    );
    assert_eq!(
        failure("let f : ui8 -> ui8 = \\() => 1;"),
        "Lambda has multiple parameters but single type was given"
    );
    assert_eq!(failure("let f : ui8 = \\x => x;"), "Expected function constraint");
    assert_eq!(failure("let f : ui8 -> string = \\x => 1;"), "Expected integer constraint");
    assert_eq!(failure("let f : ui8 -> ui8 = \\x => y;"), "Unknown variable y");
}

#[test]
fn a_lambda_that_is_not_asked_for_a_type_fails() {
    assert_eq!(failure_of("\\x => x"), "Expected constraints");
    assert_eq!(failure_of("(\\x => x * x) 5"), "Expected constraints");
    assert_eq!(failure_of("(\\x => x, 1)"), "Expected equality constraints");
}

#[test]
fn a_lambda_under_the_unit_type_binds_no_parameter() {
    let lambda = Tree::Lambda(Lambda {
        parameters: vec![Identifier { name: Name::from("x") }],
        body: Box::new(Tree::Number(Number::from(1))),
    });
    let asked = Type::from_function(Type::UnitType, atom(AtomTypeKind::UI8));
    assert_eq!(under(&lambda, asked.clone()), Ok(Some(asked)));
    let uses = Tree::Lambda(Lambda {
        parameters: vec![Identifier { name: Name::from("x") }],
        body: Box::new(Tree::Identifier(Identifier { name: Name::from("x") })),
    });
    let asked = Type::from_function(Type::UnitType, atom(AtomTypeKind::UI8));
    assert_eq!(under(&uses, asked), Err("Unknown variable x".to_string()));
}

#[test]
fn an_application_has_the_return_type_of_its_function() {
    assert_eq!(type_of("std.print \"a\""), Some(Type::UnitType));
    assert_eq!(type_of("std.read \"a\""), Some(atom(AtomTypeKind::Text)));
    assert!(checks("let x : ui8 = 3; let s : string = std.to_string x;"));
    assert!(checks("let f : ui8 -> ui8 = \\x => x; let y : ui8 = 1; let z : ui8 = f y;"));
    assert_eq!(
        failure_of("std.to_string 3"),
        "Param type AtomType(AtomType { kind: I64 }) does not match argument type AtomType(AtomType { kind: UI8 })"
    );
    assert_eq!(failure_of("1 2"), "Expected function type result");
    assert_eq!(failure("let x : ui8 = 3; x 1;"), "Expected function type result");
    assert_eq!(failure_of("f 1"), "Unknown variable f");
    assert_eq!(failure_of("std.print y"), "Unknown variable y");
}

#[test]
fn type_names_are_looked_up() {
    assert!(checks("let a : string = \"a\";"));
    assert_eq!(failure("let a : i64 = 1;"), "Unknown type identifier: i64");
    assert_eq!(failure("let f : ui8 -> nope = 1;"), "Unknown type identifier: nope");
    assert_eq!(failure("let f : nope -> ui8 = 1;"), "Unknown type identifier: nope");
    assert_eq!(failure("let a : [nope; 1] = [1];"), "Unknown type identifier: nope");
    assert_eq!(failure("let a : (ui8, nope) = (1, 2);"), "Unknown type identifier: nope");
}

#[test]
fn type_nodes_have_the_types_they_write() {
    let name = |n: &str| Tree::IdentifierType(IdentifierType { name: Name::from(n) });
    let function = Tree::FunctionType(FunctionType {
        from: Box::new(name("ui8")),
        to: Box::new(Tree::UnitType),
    });
    assert_eq!(
        check(&function).ok(),
        Some(Some(Type::from_function(atom(AtomTypeKind::UI8), Type::UnitType)))
    );
    let array = Tree::ArrayType(galec::data::hlr_ast::ArrayType {
        value_type: Box::new(name("string")),
        length: 7,
    });
    assert_eq!(
        check(&array).ok(),
        Some(Some(Type::from_array_type(atom(AtomTypeKind::Text), 7)))
    );
    let product = Tree::ProductType(galec::data::hlr_ast::ProductType {
        elements: vec![name("ui8"), Tree::UnitType],
    });
    assert_eq!(
        check(&product).ok(),
        Some(Some(Type::from_product(vec![atom(AtomTypeKind::UI8), Type::UnitType])))
    );
    assert_eq!(check(&Tree::UnitType).ok(), Some(Some(Type::UnitType)));
}

#[test]
fn a_sum_type_is_accepted_and_has_no_type() {
    let sum = |options: Vec<Tree>| Tree::SumType(galec::data::hlr_ast::SumType { options });
    let name = |n: &str| Tree::IdentifierType(IdentifierType { name: Name::from(n) });
    assert!(matches!(check(&sum(vec![name("ui8"), name("nope")])), Ok(None)));
    assert_eq!(failure("let a : ui8 | string = 1;"), "Expected let rhs to return a type");
}

#[test]
fn a_type_without_a_type_is_named_in_the_failure() {
    let name = |n: &str| Tree::IdentifierType(IdentifierType { name: Name::from(n) });
    let sum = || {
        Tree::SumType(galec::data::hlr_ast::SumType { options: vec![name("ui8"), name("string")] })
    };
    let from = Tree::FunctionType(FunctionType { from: Box::new(sum()), to: Box::new(name("ui8")) });
    assert_eq!(
        check(&from).err().map(|f| f.message),
        Some("Expected lhs to return type".to_string())
    );
    let to = Tree::FunctionType(FunctionType { from: Box::new(name("ui8")), to: Box::new(sum()) });
    assert_eq!(
        check(&to).err().map(|f| f.message),
        Some("Expected rhs to return type".to_string())
    );
    let array = Tree::ArrayType(galec::data::hlr_ast::ArrayType {
        value_type: Box::new(sum()),
        length: 1,
    });
    assert_eq!(
        check(&array).err().map(|f| f.message),
        Some("Expected array value type to return type".to_string())
    );
    let product = Tree::ProductType(galec::data::hlr_ast::ProductType { elements: vec![sum()] });
    assert_eq!(
        check(&product).err().map(|f| f.message),
        Some("Expected type result".to_string())
    );
}

#[test]
fn an_initializer_without_a_type_is_a_failure() {
    assert_eq!(
        failure("let x : ui8 = { let y : ui8 = 1 };"),
        "Expected let expression to yield type"
    );
    assert_eq!(failure_of("[{ let y : ui8 = 1 }]"), "Expected type results");
    assert_eq!(failure_of("[1, { let y : ui8 = 1 }]"), "Expected type result");
    assert_eq!(failure_of("(1, { let y : ui8 = 1 })"), "Expected type result");
    assert_eq!(
        failure_of("std.print ({ let y : ui8 = 1 })"),
        "Expected parameters to evaluate to type"
    );
}

#[test]
fn the_first_failure_ends_the_check() {
    assert_eq!(failure("let a : ui8 = x; let b : nope = 1;"), "Unknown variable x");
    assert_eq!(failure("let b : nope = x;"), "Unknown type identifier: nope");
    assert!(matches!(check(&program("")), Ok(None)));
    assert!(matches!(check(&program("1; \"a\";")), Ok(None)));
}
