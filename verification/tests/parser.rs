use galec::data::hlr_ast::{BinOpType, Tree};
use galec::parser::{
    consume_token, parse, parse_bool, parse_expression, parse_type, peek_token, Cursor,
};
use galec::tokenizer::{tokenize, Token};

fn tokens(code: &str) -> Vec<Token> {
    tokenize(&code.to_string())
}

fn file(code: &str) -> Vec<Tree> {
    match parse(&tokens(code)) {
        Ok(Tree::File(f)) => f.statements,
        Ok(other) => panic!("expected a file, got {:?}", other),
        Err(f) => panic!("{}", f.message),
    }
}

fn statement(code: &str) -> Tree {
    let mut statements = file(code);
    assert_eq!(statements.len(), 1);
    statements.remove(0)
}

fn failure(code: &str) -> String {
    match parse(&tokens(code)) {
        Ok(t) => panic!("expected a failure, got {:?}", t),
        Err(f) => f.message,
    }
}

fn type_of(code: &str) -> Tree {
    let ts = tokens(code);
    let mut it = Cursor::new(&ts);
    match parse_type(&mut it) {
        Ok(t) => t,
        Err(f) => panic!("{}", f.message),
    }
}

fn name_of(t: &Tree) -> &str {
    match t {
        Tree::Identifier(i) => i.name.text.as_str(),
        Tree::IdentifierType(i) => i.name.text.as_str(),
        other => panic!("expected a name, got {:?}", other),
    }
}

fn number_of(t: &Tree) -> i64 {
    match t {
        Tree::Number(n) => n.value,
        other => panic!("expected a number, got {:?}", other),
    }
}

#[test]
fn an_empty_text_is_an_empty_file() {
    assert_eq!(file("").len(), 0);
}

#[test]
fn a_binding_has_a_name_a_type_and_an_initializer() {
    match statement("let x : ui8 = 3;") {
        Tree::Let(l) => {
            assert_eq!(l.id.name.text, "x");
            assert_eq!(name_of(&l.exp_type), "ui8");
            assert_eq!(number_of(&l.exp), 3);
        }
        other => panic!("expected a let, got {:?}", other),
    }
}

#[test]
fn statements_end_with_a_semicolon() {
    let statements = file("x; 1; \"a\";");
    assert_eq!(statements.len(), 3);
    assert_eq!(name_of(&statements[0]), "x");
    assert_eq!(number_of(&statements[1]), 1);
    assert!(matches!(&statements[2], Tree::Text(t) if t.text == "a"));
    assert_eq!(failure("x"), "Expected Semicolon, got nothing");
    assert_eq!(failure("x y z"), "Expected Semicolon, got Identifier(\"z\")");
}

#[test]
fn operators_group_to_the_right() {
    match statement("1 * 2 + 3;") {
        Tree::BinOp(outer) => {
            assert!(matches!(outer.op_type, BinOpType::Mult));
            assert_eq!(number_of(&outer.lhs), 1);
            match *outer.rhs {
                Tree::BinOp(inner) => {
                    assert!(matches!(inner.op_type, BinOpType::Plus));
                    assert_eq!(number_of(&inner.lhs), 2);
                    assert_eq!(number_of(&inner.rhs), 3);
                }
                other => panic!("expected an operation, got {:?}", other),
            }
        }
        other => panic!("expected an operation, got {:?}", other),
    }
    match statement("a !! 1;") {
        Tree::BinOp(b) => {
            assert!(matches!(b.op_type, BinOpType::ArrIndex));
            assert_eq!(name_of(&b.lhs), "a");
            assert_eq!(number_of(&b.rhs), 1);
        }
        other => panic!("expected an operation, got {:?}", other),
    }
}

#[test]
fn a_function_is_applied_to_what_stands_behind_it() {
    match statement("f 5;") {
        Tree::App(a) => {
            assert_eq!(name_of(&a.fn_exp), "f");
            assert_eq!(number_of(&a.param_exp), 5);
        }
        other => panic!("expected an application, got {:?}", other),
    }
    match statement("f (1, 2) + 3;") {
        Tree::BinOp(b) => {
            assert!(matches!(*b.lhs, Tree::App(_)));
            assert_eq!(number_of(&b.rhs), 3);
        }
        other => panic!("expected an operation, got {:?}", other),
    }
    assert!(matches!(statement("f \"a\";"), Tree::App(_)));
    assert!(matches!(statement("f [1];"), Tree::App(_)));
    assert!(matches!(statement("f x;"), Tree::App(_)));
}

#[test]
fn a_lambda_in_brackets_can_be_applied() {
    match statement("(\\x => x * x) 5;") {
        Tree::App(a) => {
            match *a.fn_exp {
                Tree::Lambda(l) => {
                    assert_eq!(l.parameters.len(), 1);
                    assert_eq!(l.parameters[0].name.text, "x");
                    assert!(matches!(*l.body, Tree::BinOp(_)));
                }
                other => panic!("expected a lambda, got {:?}", other),
            }
            assert_eq!(number_of(&a.param_exp), 5);
        }
        other => panic!("expected an application, got {:?}", other),
    }
}

#[test]
fn lambdas_take_one_name_or_a_list_of_names() {
    match statement("\\x => x;") {
        Tree::Lambda(l) => {
            assert_eq!(l.parameters.len(), 1);
            assert_eq!(name_of(&l.body), "x");
        }
        other => panic!("expected a lambda, got {:?}", other),
    }
    match statement("\\(x, y, z) => y;") {
        Tree::Lambda(l) => {
            let names: Vec<&str> = l.parameters.iter().map(|p| p.name.text.as_str()).collect();
            assert_eq!(names, vec!["x", "y", "z"]);
        }
        other => panic!("expected a lambda, got {:?}", other),
    }
    match statement("\\() => 1;") {
        Tree::Lambda(l) => assert_eq!(l.parameters.len(), 0),
        other => panic!("expected a lambda, got {:?}", other),
    }
    assert_eq!(failure("\\x 1;"), "Expected FatRightArrow, got Number(1)");
    assert_eq!(failure("\\(x y) => 1;"), "Expected RightRoundBracket, got Identifier(\"y\")");
    assert_eq!(failure("\\1 => 1;"), "Expected identifier, got Number(1)");
}

#[test]
fn arrays_keep_their_members_in_order() {
    match statement("[10, 20, 30];") {
        Tree::Array(a) => {
            let values: Vec<i64> = a.elements.iter().map(number_of).collect();
            assert_eq!(values, vec![10, 20, 30]);
        }
        other => panic!("expected an array, got {:?}", other),
    }
    assert!(matches!(statement("[];"), Tree::Array(a) if a.elements.is_empty()));
    assert!(matches!(statement("[1];"), Tree::Array(a) if a.elements.len() == 1));
    assert_eq!(failure("[1; 2];"), "Expected Comma, got Semicolon");
    assert_eq!(failure("[1,"), "Expected value, got None");
}

#[test]
fn a_tuple_of_one_member_is_the_member() {
    assert!(matches!(statement("(1, 2);"), Tree::Tuple(t) if t.elements.len() == 2));
    assert!(matches!(statement("();"), Tree::Tuple(t) if t.elements.is_empty()));
    assert_eq!(number_of(&statement("(7);")), 7);
    assert_eq!(number_of(&statement("((7));")), 7);
}

#[test]
fn a_block_of_one_statement_is_the_statement() {
    match statement("{ let x : ui8 = 1; x };") {
        Tree::Block(b) => {
            assert_eq!(b.statements.len(), 2);
            assert!(matches!(&b.statements[0], Tree::Let(_)));
            assert_eq!(name_of(&b.statements[1]), "x");
        }
        other => panic!("expected a block, got {:?}", other),
    }
    assert!(matches!(statement("{};"), Tree::Block(b) if b.statements.is_empty()));
    assert_eq!(name_of(&statement("{ x };")), "x");
    assert_eq!(failure("{ x 1 2 };"), "Expected Semicolon, got Number(2)");
}

#[test]
fn types_are_names_products_functions_sums_and_arrays() {
    assert_eq!(name_of(&type_of("ui8")), "ui8");
    assert_eq!(name_of(&type_of("(ui8)")), "ui8");
    assert!(matches!(type_of("()"), Tree::ProductType(p) if p.elements.is_empty()));
    match type_of("(ui8, string)") {
        Tree::ProductType(p) => {
            assert_eq!(p.elements.len(), 2);
            assert_eq!(name_of(&p.elements[0]), "ui8");
            assert_eq!(name_of(&p.elements[1]), "string");
        }
        other => panic!("expected a product, got {:?}", other),
    }
    match type_of("a -> b -> c") {
        Tree::FunctionType(f) => {
            assert_eq!(name_of(&f.from), "a");
            match *f.to {
                Tree::FunctionType(g) => {
                    assert_eq!(name_of(&g.from), "b");
                    assert_eq!(name_of(&g.to), "c");
                }
                other => panic!("expected a function type, got {:?}", other),
            }
        }
        other => panic!("expected a function type, got {:?}", other),
    }
    match type_of("a | b -> c | d") {
        Tree::SumType(s) => {
            assert_eq!(s.options.len(), 3);
            assert_eq!(name_of(&s.options[0]), "a");
            assert!(matches!(&s.options[1], Tree::FunctionType(_)));
            assert_eq!(name_of(&s.options[2]), "d");
        }
        other => panic!("expected a sum, got {:?}", other),
    }
    match type_of("[ui8; 4]") {
        Tree::ArrayType(a) => {
            assert_eq!(name_of(&a.value_type), "ui8");
            assert_eq!(a.length, 4);
        }
        other => panic!("expected an array type, got {:?}", other),
    }
}

#[test]
fn a_broken_type_names_what_was_expected() {
    assert_eq!(failure("let x : = 3;"), "Expected identifier, got Equals");
    assert_eq!(failure("let x : [ui8 4] = 3;"), "Expected Semicolon, got Number(4)");
    assert_eq!(failure("let x : [ui8; y] = 3;"), "Expected number");
    assert_eq!(failure("let x : (a b) = 3;"), "Expected Comma, got Identifier(\"b\")");
    assert_eq!(failure("let x : (a,"), "Expected identifier, got nothing");
    assert_eq!(failure("let x ui8 = 3;"), "Expected Colon, got Identifier(\"ui8\")");
    assert_eq!(failure("let 1 : ui8 = 3;"), "Expected identifier, got Number(1)");
    assert_eq!(failure("let x : ui8 3;"), "Expected Equals, got Number(3)");
    assert_eq!(failure("let"), "Expected identifier, got nothing");
}

#[test]
fn what_is_no_value_is_named_in_the_failure() {
    assert_eq!(failure(";"), "Expected value, got Some(Semicolon)");
    assert_eq!(failure("1 + ;"), "Expected value, got Some(Semicolon)");
    assert_eq!(failure("1 +"), "Expected value, got None");
    assert_eq!(failure("true;"), "Expected value, got Some(True)");
    assert_eq!(failure("{ x; };"), "Expected value, got Some(RightCurlyBracket)");
    assert_eq!(failure("{ x;"), "Expected let or expression, got end of stream");
}

#[test]
fn truth_values_are_read_on_request() {
    let ts = tokens("true false 1");
    let mut it = Cursor::new(&ts);
    assert!(matches!(parse_bool(&mut it), Ok(Tree::Boolean(b)) if b.value));
    assert!(matches!(parse_bool(&mut it), Ok(Tree::Boolean(b)) if !b.value));
    assert!(matches!(parse_bool(&mut it), Err(f) if f.message == "Expected bool"));
}

#[test]
fn the_cursor_moves_only_when_it_consumes() {
    let ts = tokens("( x )");
    let mut it = Cursor::new(&ts);
    assert!(peek_token(&it, Token::LeftRoundBracket));
    assert!(!peek_token(&it, Token::RightRoundBracket));
    assert!(peek_token(&it, Token::LeftRoundBracket));
    assert!(consume_token(&mut it, Token::LeftRoundBracket).is_ok());
    assert!(matches!(parse_expression(&mut it), Ok(Tree::Identifier(_))));
    match consume_token(&mut it, Token::Comma) {
        Err(f) => assert_eq!(f.message, "Expected Comma, got RightRoundBracket"),
        Ok(_) => panic!("expected a failure"),
    }
    match consume_token(&mut it, Token::Comma) {
        Err(f) => assert_eq!(f.message, "Expected Comma, got nothing"),
        Ok(_) => panic!("expected a failure"),
    }
    assert!(!peek_token(&it, Token::Comma));
}
