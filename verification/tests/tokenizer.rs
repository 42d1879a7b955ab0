use galec::tokenizer::{to_simple_tokens, tokenize, SimpleToken, Token};

fn tokens(code: &str) -> Vec<Token> {
    tokenize(&code.to_string())
}

fn id(name: &str) -> Token {
    Token::Identifier(name.to_string())
}

#[test]
fn a_binding_is_split_into_its_tokens() {
    assert_eq!(
        tokens("let x : ui8 = 3;"),
        vec![
            Token::Let,
            id("x"),
            Token::Colon,
            id("ui8"),
            Token::Equals,
            Token::Number(3),
            Token::Semicolon
        ]
    );
}

#[test]
fn keywords_are_told_from_identifiers() {
    assert_eq!(
        tokens("type true false match module public ref import if while fn let elseif else"),
        vec![
            Token::Type,
            Token::True,
            Token::False,
            Token::Match,
            Token::Module,
            Token::Public,
            Token::Ref,
            Token::Import,
            Token::If,
            Token::While,
            Token::Function,
            Token::Let,
            Token::Elseif,
            Token::Else
        ]
    );
    assert_eq!(tokens("lets iff _x a.b.c x1 T"), vec![
        id("lets"),
        id("iff"),
        id("_x"),
        id("a.b.c"),
        id("x1"),
        id("T")
    ]);
}

#[test]
fn marks_are_named() {
    assert_eq!(
        tokens("[ ] ( ) { } : ; , \\ < % + *"),
        vec![
            Token::LeftSquareBracket,
            Token::RightSquareBracket,
            Token::LeftRoundBracket,
            Token::RightRoundBracket,
            Token::LeftCurlyBracket,
            Token::RightCurlyBracket,
            Token::Colon,
            Token::Semicolon,
            Token::Comma,
            Token::Backslash,
            Token::SmallerThan,
            Token::Modulo,
            Token::Plus,
            Token::Mul
        ]
    );
}

#[test]
fn double_marks_are_read_as_one() {
    assert_eq!(
        tokens("-> => == = || | !! ! x"),
        vec![
            Token::RightArrow,
            Token::FatRightArrow,
            Token::DoubleEquals,
            Token::Equals,
            Token::Or,
            Token::Pipe,
            Token::ArrIndex,
            Token::Not,
            id("x")
        ]
    );
    assert_eq!(tokens("a->b"), vec![id("a"), Token::RightArrow, id("b")]);
    assert_eq!(tokens("a!!1"), vec![id("a"), Token::ArrIndex, Token::Number(1)]);
    assert_eq!(tokens("==="), vec![Token::DoubleEquals]);
    assert_eq!(tokens("===1"), vec![Token::DoubleEquals, Token::Equals, Token::Number(1)]);
}

#[test]
fn a_lone_minus_has_no_name() {
    assert_eq!(
        to_simple_tokens(&"- 1".to_string()),
        vec![SimpleToken::Punctuation("-".to_string()), SimpleToken::Number(1)]
    );
    assert_eq!(tokens("- 1"), vec![Token::Error, Token::Number(1)]);
}

#[test]
fn a_half_mark_at_the_very_end_is_dropped() {
    assert_eq!(tokens("x -"), vec![id("x")]);
    assert_eq!(tokens("x ="), vec![id("x")]);
    assert_eq!(tokens("x |"), vec![id("x")]);
    assert_eq!(tokens("x !"), vec![id("x")]);
    assert_eq!(tokens("x = "), vec![id("x"), Token::Equals]);
}

#[test]
fn what_is_not_known_is_an_error() {
    assert_eq!(tokens("> # @"), vec![Token::Error, Token::Error, Token::Error]);
    assert_eq!(tokens("\u{e9}"), vec![Token::Error]);
}

#[test]
fn numbers_are_read_in_decimal() {
    assert_eq!(tokens("0 7 42 007"), vec![
        Token::Number(0),
        Token::Number(7),
        Token::Number(42),
        Token::Number(7)
    ]);
    assert_eq!(tokens("9223372036854775807"), vec![Token::Number(i64::MAX)]);
    assert_eq!(tokens("12ab"), vec![Token::Number(12), id("ab")]);
}

#[test]
fn a_number_that_does_not_fit_is_an_error() {
    assert_eq!(tokens("9223372036854775808"), vec![Token::Error]);
    assert_eq!(tokens("99999999999999999999999 1"), vec![Token::Error, Token::Number(1)]);
}

#[test]
fn quoted_texts_keep_what_is_between_the_marks() {
    assert_eq!(tokens("\"hello world\""), vec![Token::Quoted("hello world".to_string())]);
    assert_eq!(tokens("\"\""), vec![Token::Quoted("".to_string())]);
    assert_eq!(tokens("\"a\"b"), vec![Token::Quoted("a".to_string()), id("b")]);
    assert_eq!(tokens("\"let 1 ->\" 2"), vec![
        Token::Quoted("let 1 ->".to_string()),
        Token::Number(2)
    ]);
    assert_eq!(tokens("\"open"), vec![Token::Quoted("open".to_string())]);
}

#[test]
fn letters_of_any_script_continue_a_word() {
    assert_eq!(tokens("caf\u{e9} x"), vec![id("caf\u{e9}"), id("x")]);
    assert_eq!(tokens("a\u{3b2}1"), vec![id("a\u{3b2}1")]);
    assert_eq!(tokens("a-b"), vec![id("a"), Token::Error, id("b")]);
}

#[test]
fn white_space_of_any_kind_separates() {
    assert_eq!(tokens(" \t\n\r x\u{a0}y\u{2003}z "), vec![id("x"), id("y"), id("z")]);
    assert_eq!(tokens(""), Vec::<Token>::new());
    assert_eq!(tokens("   "), Vec::<Token>::new());
}

#[test]
fn tokens_are_compared_by_kind_and_content() {
    assert!(Token::Let.equals(&Token::Let));
    assert!(!Token::Let.equals(&Token::Else));
    assert!(id("a").equals(&id("a")));
    assert!(!id("a").equals(&id("b")));
    assert!(!id("a").equals(&Token::Quoted("a".to_string())));
    assert!(Token::Number(1).equals(&Token::Number(1)));
    assert!(!Token::Number(1).equals(&Token::Number(2)));
}
