//! The parser: a recursive descent over the tokens of a program that builds
//! the surface tree.
//!
//! Statements are bindings, `let name : type = expression`, or expressions.
//! Types are sums of function types over products; an array type is written
//! `[type; length]`. Expressions are identifiers, quoted texts, numbers,
//! arrays, tuples, blocks, lambdas, applications by juxtaposition and the
//! binary operations `*`, `+` and `!!`.
use crate::data::hlr_ast::{
    identifiers_view, trees_view, App, Array, ArrayType, BinOp, BinOpType, Block, Boolean, File,
    FunctionType, Identifier, IdentifierType, Lambda, Let, Name, Number, ProductType, SumType, Text,
    Tree, TreeView, Tuple,
};
use crate::tokenizer::{tokens_view, Token, TokenView};
use vstd::prelude::*;
use vstd::string::*;

verus! {

/// Why parsing failed.
#[derive(Debug)]
pub struct Failure {
    pub message: String,
}

impl Failure {
    pub fn new(m: &str) -> (f: Failure)
        ensures
            f.message@ == m@,
    {
        Failure { message: String::from_str(m) }
    }

    pub fn from(m: String) -> (f: Failure)
        ensures
            f.message == m,
    {
        Failure { message: m }
    }
}

/// How parsing from a position ends: with what was read and the position
/// behind it, or with the message of the failure.
pub type Parsed<T> = Result<(T, int), Seq<char>>;

/// The text that the derived `Debug` of `Token` writes for a token.
pub uninterp spec fn token_debug_text(t: TokenView) -> Seq<char>;

/// Renders a token the way its derived `Debug` does, by `format!("{:?}", t)`.
/// Two tokens of the same kind and content are written alike, so the text is
/// a function of the token's mathematical value.
#[verifier::external_body]
fn token_debug_string(t: &Token) -> (s: String)
    ensures
        s@ == token_debug_text(t@),
{
    format!("{:?}", t)
}

/// The token at `pos` is `t`.
pub open spec fn peek(ts: Seq<TokenView>, pos: int, t: TokenView) -> bool {
    0 <= pos < ts.len() && ts[pos] == t
}

/// What is said where a step of the parser would not move on. It never is.
pub open spec fn stalled<T>() -> Parsed<T> {
    Err("Parser made no progress"@)
}

/// The position behind the token `t`, which has to stand at `pos`.
pub open spec fn consume(ts: Seq<TokenView>, pos: int, t: TokenView) -> Result<int, Seq<char>> {
    if 0 <= pos < ts.len() {
        if ts[pos] == t {
            Ok(pos + 1)
        } else {
            Err("Expected "@ + token_debug_text(t) + ", got "@ + token_debug_text(ts[pos]))
        }
    } else {
        Err("Expected "@ + token_debug_text(t) + ", got nothing"@)
    }
}

/// The identifier that has to stand at `pos`.
pub open spec fn name_data(ts: Seq<TokenView>, pos: int) -> Parsed<Seq<char>> {
    if 0 <= pos < ts.len() {
        match ts[pos] {
            TokenView::Identifier(i) => Ok((i, pos + 1)),
            a => Err("Expected identifier, got "@ + token_debug_text(a)),
        }
    } else {
        Err("Expected identifier, got nothing"@)
    }
}

/// The quoted text that has to stand at `pos`.
pub open spec fn quoted(ts: Seq<TokenView>, pos: int) -> Parsed<Seq<char>> {
    if 0 <= pos < ts.len() {
        match ts[pos] {
            TokenView::Quoted(i) => Ok((i, pos + 1)),
            a => Err("Expected string, got "@ + token_debug_text(a)),
        }
    } else {
        Err("Expected string, got nothing"@)
    }
}

/// The number that has to stand at `pos`.
pub open spec fn number(ts: Seq<TokenView>, pos: int) -> Parsed<TreeView> {
    if 0 <= pos < ts.len() {
        match ts[pos] {
            TokenView::Number(i) => Ok((TreeView::Number { value: i }, pos + 1)),
            _ => Err("Expected number"@),
        }
    } else {
        Err("Expected number"@)
    }
}

/// The truth value that has to stand at `pos`.
pub open spec fn boolean(ts: Seq<TokenView>, pos: int) -> Parsed<TreeView> {
    if 0 <= pos < ts.len() {
        match ts[pos] {
            TokenView::True => Ok((TreeView::Boolean { value: true }, pos + 1)),
            TokenView::False => Ok((TreeView::Boolean { value: false }, pos + 1)),
            _ => Err("Expected bool"@),
        }
    } else {
        Err("Expected bool"@)
    }
}

/// A list of one member stands for the member itself.
pub open spec fn product_of(members: Seq<TreeView>) -> TreeView {
    if members.len() == 1 {
        members[0]
    } else {
        TreeView::ProductType { elements: members }
    }
}

/// The type names behind the first one of a product, up to the closing
/// bracket.
pub open spec fn product_rest(ts: Seq<TokenView>, pos: int, found: Seq<TreeView>) -> Parsed<TreeView>
    decreases ts.len() - pos,
{
    if peek(ts, pos, TokenView::RightRoundBracket) {
        Ok((product_of(found), pos + 1))
    } else {
        match consume(ts, pos, TokenView::Comma) {
            Err(m) => Err(m),
            Ok(at1) => match name_data(ts, at1) {
                Err(m) => Err(m),
                Ok((name, at2)) => product_rest(
                    ts,
                    at2,
                    found.push(TreeView::IdentifierType { name }),
                ),
            },
        }
    }
}

/// A product type: a type name, or type names between round brackets.
pub open spec fn product_type(ts: Seq<TokenView>, pos: int) -> Parsed<TreeView> {
    if peek(ts, pos, TokenView::LeftRoundBracket) {
        if peek(ts, pos + 1, TokenView::RightRoundBracket) {
            Ok((TreeView::ProductType { elements: Seq::empty() }, pos + 2))
        } else {
            match name_data(ts, pos + 1) {
                Err(m) => Err(m),
                Ok((name, p)) => product_rest(ts, p, seq![TreeView::IdentifierType { name }]),
            }
        }
    } else {
        match name_data(ts, pos) {
            Err(m) => Err(m),
            Ok((name, p)) => Ok((TreeView::IdentifierType { name }, p)),
        }
    }
}

/// A function type: a product type, or one with an arrow and a function
/// type behind it.
pub open spec fn function_type(ts: Seq<TokenView>, pos: int) -> Parsed<TreeView>
    decreases ts.len() - pos,
{
    match product_type(ts, pos) {
        Err(m) => Err(m),
        Ok((lhs, p)) => if peek(ts, p, TokenView::RightArrow) {
            if p >= pos {
                match function_type(ts, p + 1) {
                    Err(m) => Err(m),
                    Ok((rhs, q)) => Ok(
                        (TreeView::FunctionType { from: Box::new(lhs), to: Box::new(rhs) }, q),
                    ),
                }
            } else {
                stalled()
            }
        } else {
            Ok((lhs, p))
        },
    }
}

/// A sum of one member stands for the member itself.
pub open spec fn sum_of(members: Seq<TreeView>) -> TreeView {
    if members.len() == 1 {
        members[0]
    } else {
        TreeView::SumType { options: members }
    }
}

/// The function types behind the first one of a sum.
pub open spec fn sum_rest(ts: Seq<TokenView>, pos: int, found: Seq<TreeView>) -> Parsed<TreeView>
    decreases ts.len() - pos,
{
    if peek(ts, pos, TokenView::Pipe) {
        match function_type(ts, pos + 1) {
            Err(m) => Err(m),
            Ok((t, q)) => if pos < q <= ts.len() {
                sum_rest(ts, q, found.push(t))
            } else {
                stalled()
            },
        }
    } else {
        Ok((sum_of(found), pos))
    }
}

/// A sum type: function types with bars between them.
pub open spec fn sum_type(ts: Seq<TokenView>, pos: int) -> Parsed<TreeView> {
    match function_type(ts, pos) {
        Err(m) => Err(m),
        Ok((first, p)) => sum_rest(ts, p, seq![first]),
    }
}

/// An array type: a type name and a length between square brackets.
pub open spec fn array_type(ts: Seq<TokenView>, pos: int) -> Parsed<TreeView> {
    match consume(ts, pos, TokenView::LeftSquareBracket) {
        Err(m) => Err(m),
        Ok(at1) => match name_data(ts, at1) {
            Err(m) => Err(m),
            Ok((name, at2)) => match consume(ts, at2, TokenView::Semicolon) {
                Err(m) => Err(m),
                Ok(at3) => match number(ts, at3) {
                    Err(m) => Err(m),
                    Ok((TreeView::Number { value }, at4)) => match consume(
                        ts,
                        at4,
                        TokenView::RightSquareBracket,
                    ) {
                        Err(m) => Err(m),
                        Ok(at5) => Ok(
                            (
                                TreeView::ArrayType {
                                    value_type: Box::new(TreeView::IdentifierType { name }),
                                    length: value as usize,
                                },
                                at5,
                            ),
                        ),
                    },
                    Ok(_) => Err("Expected array type length to be number"@),
                },
            },
        },
    }
}

/// A type: an array type where a square bracket opens, else a sum type.
pub open spec fn type_at(ts: Seq<TokenView>, pos: int) -> Parsed<TreeView> {
    if peek(ts, pos, TokenView::LeftSquareBracket) {
        array_type(ts, pos)
    } else {
        sum_type(ts, pos)
    }
}

/// The parameter names behind the first one of a lambda.
pub open spec fn names_rest(ts: Seq<TokenView>, pos: int, found: Seq<Seq<char>>) -> Parsed<
    Seq<Seq<char>>,
>
    decreases ts.len() - pos,
{
    if peek(ts, pos, TokenView::Comma) {
        match name_data(ts, pos + 1) {
            Err(m) => Err(m),
            Ok((name, q)) => names_rest(ts, q, found.push(name)),
        }
    } else {
        Ok((found, pos))
    }
}

/// The parameters of a lambda: a name, or names between round brackets.
pub open spec fn parameters(ts: Seq<TokenView>, pos: int) -> Parsed<Seq<Seq<char>>> {
    if peek(ts, pos, TokenView::LeftRoundBracket) {
        let listed: Parsed<Seq<Seq<char>>> = if peek(ts, pos + 1, TokenView::RightRoundBracket) {
            Ok((Seq::empty(), pos + 1))
        } else {
            match name_data(ts, pos + 1) {
                Err(m) => Err(m),
                Ok((name, p)) => names_rest(ts, p, seq![name]),
            }
        };
        match listed {
            Err(m) => Err(m),
            Ok((names, p)) => match consume(ts, p, TokenView::RightRoundBracket) {
                Err(m) => Err(m),
                Ok(q) => Ok((names, q)),
            },
        }
    } else {
        match name_data(ts, pos) {
            Err(m) => Err(m),
            Ok((name, p)) => Ok((seq![name], p)),
        }
    }
}

/// What can follow a function to be its argument.
pub open spec fn starts_argument(ts: Seq<TokenView>, pos: int) -> bool {
    0 <= pos < ts.len() && (ts[pos] == TokenView::LeftRoundBracket || ts[pos] is Number
        || ts[pos] is Identifier || ts[pos] == TokenView::LeftSquareBracket || ts[pos] is Quoted)
}

/// The operator at `pos`, if one stands there.
pub open spec fn operator(ts: Seq<TokenView>, pos: int) -> Option<BinOpType> {
    if peek(ts, pos, TokenView::Mul) {
        Some(BinOpType::Mult)
    } else if peek(ts, pos, TokenView::Plus) {
        Some(BinOpType::Plus)
    } else if peek(ts, pos, TokenView::ArrIndex) {
        Some(BinOpType::ArrIndex)
    } else {
        None
    }
}

/// A tuple of one member stands for the member itself.
pub open spec fn tuple_of(members: Seq<TreeView>) -> TreeView {
    if members.len() == 1 {
        members[0]
    } else {
        TreeView::Tuple { elements: members }
    }
}

/// A block of one statement stands for the statement itself.
pub open spec fn block_of(members: Seq<TreeView>) -> TreeView {
    if members.len() == 1 {
        members[0]
    } else {
        TreeView::Block { statements: members }
    }
}

/// An expression.
pub open spec fn expression(ts: Seq<TokenView>, pos: int) -> Parsed<TreeView>
    decreases ts.len() - pos, 6nat,
{
    operation(ts, pos)
}

/// An operation: an application, or one with an operator and an operation
/// behind it. The operators group to the right.
pub open spec fn operation(ts: Seq<TokenView>, pos: int) -> Parsed<TreeView>
    decreases ts.len() - pos, 5nat,
{
    match application(ts, pos) {
        Err(m) => Err(m),
        Ok((lhs, p)) => match operator(ts, p) {
            None => Ok((lhs, p)),
            Some(op_type) => if p >= pos {
                match operation(ts, p + 1) {
                    Err(m) => Err(m),
                    Ok((rhs, q)) => Ok(
                        (TreeView::BinOp { lhs: Box::new(lhs), rhs: Box::new(rhs), op_type }, q),
                    ),
                }
            } else {
                stalled()
            },
        },
    }
}

/// An application: a function, or a function with its argument behind it.
pub open spec fn application(ts: Seq<TokenView>, pos: int) -> Parsed<TreeView>
    decreases ts.len() - pos, 4nat,
{
    match lambda(ts, pos) {
        Err(m) => Err(m),
        Ok((first, p)) => if starts_argument(ts, p) {
            if pos < p <= ts.len() {
                match lambda(ts, p) {
                    Err(m) => Err(m),
                    Ok((second, q)) => Ok(
                        (TreeView::App { fn_exp: Box::new(first), param_exp: Box::new(second) }, q),
                    ),
                }
            } else {
                stalled()
            }
        } else {
            Ok((first, p))
        },
    }
}

/// A lambda: a backslash, the parameters, a fat arrow and the body; or a
/// value.
pub open spec fn lambda(ts: Seq<TokenView>, pos: int) -> Parsed<TreeView>
    decreases ts.len() - pos, 3nat,
{
    if peek(ts, pos, TokenView::Backslash) {
        match parameters(ts, pos + 1) {
            Err(m) => Err(m),
            Ok((names, p)) => match consume(ts, p, TokenView::FatRightArrow) {
                Err(m) => Err(m),
                Ok(q) => if pos < q <= ts.len() {
                    match expression(ts, q) {
                        Err(m) => Err(m),
                        Ok((body, r)) => Ok(
                            (TreeView::Lambda { parameters: names, body: Box::new(body) }, r),
                        ),
                    }
                } else {
                    stalled()
                },
            },
        }
    } else {
        value(ts, pos)
    }
}

/// What is said where no value starts at `pos`.
pub open spec fn unexpected_value_text(ts: Seq<TokenView>, pos: int) -> Seq<char> {
    if 0 <= pos < ts.len() {
        "Expected value, got Some("@ + token_debug_text(ts[pos]) + ")"@
    } else {
        "Expected value, got None"@
    }
}

/// A value: an identifier, a quoted text, a number, an array, a tuple or a
/// block.
pub open spec fn value(ts: Seq<TokenView>, pos: int) -> Parsed<TreeView>
    decreases ts.len() - pos, 2nat,
{
    if 0 <= pos < ts.len() {
        match ts[pos] {
            TokenView::Identifier(i) => Ok((TreeView::Identifier { name: i }, pos + 1)),
            TokenView::Quoted(q) => Ok((TreeView::Text { text: q }, pos + 1)),
            TokenView::Number(n) => Ok((TreeView::Number { value: n }, pos + 1)),
            TokenView::LeftSquareBracket => array(ts, pos),
            TokenView::LeftRoundBracket => tuple(ts, pos),
            TokenView::LeftCurlyBracket => block(ts, pos),
            _ => Err(unexpected_value_text(ts, pos)),
        }
    } else {
        Err(unexpected_value_text(ts, pos))
    }
}

/// The expressions behind the first one of a list, with commas between
/// them, up to the closing bracket `close`.
pub open spec fn items_rest(ts: Seq<TokenView>, pos: int, close: TokenView, found: Seq<TreeView>) -> Parsed<
    Seq<TreeView>,
>
    decreases ts.len() - pos, 0nat,
{
    if peek(ts, pos, close) {
        Ok((found, pos + 1))
    } else {
        match consume(ts, pos, TokenView::Comma) {
            Err(m) => Err(m),
            Ok(p) => match expression(ts, p) {
                Err(m) => Err(m),
                Ok((t, q)) => if pos < q <= ts.len() {
                    items_rest(ts, q, close, found.push(t))
                } else {
                    stalled()
                },
            },
        }
    }
}

/// The expressions of a list between the brackets `open` and `close`.
pub open spec fn items(ts: Seq<TokenView>, pos: int, open: TokenView, close: TokenView) -> Parsed<
    Seq<TreeView>,
>
    decreases ts.len() - pos, 1nat,
{
    match consume(ts, pos, open) {
        Err(m) => Err(m),
        Ok(p) => if peek(ts, p, close) {
            Ok((Seq::empty(), p + 1))
        } else {
            match expression(ts, p) {
                Err(m) => Err(m),
                Ok((first, q)) => if pos < q <= ts.len() {
                    items_rest(ts, q, close, seq![first])
                } else {
                    stalled()
                },
            }
        },
    }
}

/// An array: expressions between square brackets, with commas between
/// them.
pub open spec fn array(ts: Seq<TokenView>, pos: int) -> Parsed<TreeView>
    decreases ts.len() - pos, 1nat,
{
    match consume(ts, pos, TokenView::LeftSquareBracket) {
        Err(m) => Err(m),
        Ok(p) => if peek(ts, p, TokenView::RightSquareBracket) {
            Ok((TreeView::Array { elements: Seq::empty() }, p + 1))
        } else {
            match expression(ts, p) {
                Err(m) => Err(m),
                Ok((first, q)) => if pos < q <= ts.len() {
                    match items_rest(ts, q, TokenView::RightSquareBracket, seq![first]) {
                        Err(m) => Err(m),
                        Ok((members, r)) => Ok((TreeView::Array { elements: members }, r)),
                    }
                } else {
                    stalled()
                },
            }
        },
    }
}

/// A tuple: expressions between round brackets, with commas between them.
pub open spec fn tuple(ts: Seq<TokenView>, pos: int) -> Parsed<TreeView>
    decreases ts.len() - pos, 1nat,
{
    match consume(ts, pos, TokenView::LeftRoundBracket) {
        Err(m) => Err(m),
        Ok(p) => if peek(ts, p, TokenView::RightRoundBracket) {
            Ok((TreeView::Tuple { elements: Seq::empty() }, p + 1))
        } else {
            match expression(ts, p) {
                Err(m) => Err(m),
                Ok((first, q)) => if pos < q <= ts.len() {
                    match items_rest(ts, q, TokenView::RightRoundBracket, seq![first]) {
                        Err(m) => Err(m),
                        Ok((members, r)) => Ok((tuple_of(members), r)),
                    }
                } else {
                    stalled()
                },
            }
        },
    }
}

/// The statements behind the first one of a block, with semicolons between
/// them, up to the closing bracket.
pub open spec fn statements_rest(ts: Seq<TokenView>, pos: int, found: Seq<TreeView>) -> Parsed<
    Seq<TreeView>,
>
    decreases ts.len() - pos, 0nat,
{
    if peek(ts, pos, TokenView::RightCurlyBracket) {
        Ok((found, pos + 1))
    } else {
        match consume(ts, pos, TokenView::Semicolon) {
            Err(m) => Err(m),
            Ok(p) => match statement(ts, p) {
                Err(m) => Err(m),
                Ok((t, q)) => if pos < q <= ts.len() {
                    statements_rest(ts, q, found.push(t))
                } else {
                    stalled()
                },
            },
        }
    }
}

/// A block: statements between curly brackets, with semicolons between
/// them.
pub open spec fn block(ts: Seq<TokenView>, pos: int) -> Parsed<TreeView>
    decreases ts.len() - pos, 1nat,
{
    match consume(ts, pos, TokenView::LeftCurlyBracket) {
        Err(m) => Err(m),
        Ok(p) => if peek(ts, p, TokenView::RightCurlyBracket) {
            Ok((TreeView::Block { statements: Seq::empty() }, p + 1))
        } else {
            match statement(ts, p) {
                Err(m) => Err(m),
                Ok((first, q)) => if pos < q <= ts.len() {
                    match statements_rest(ts, q, seq![first]) {
                        Err(m) => Err(m),
                        Ok((members, r)) => Ok((block_of(members), r)),
                    }
                } else {
                    stalled()
                },
            }
        },
    }
}

/// A binding: `let`, the name, a colon, the type, an equals sign and the
/// initializer.
pub open spec fn binding(ts: Seq<TokenView>, pos: int) -> Parsed<TreeView>
    decreases ts.len() - pos, 7nat,
{
    match consume(ts, pos, TokenView::Let) {
        Err(m) => Err(m),
        Ok(at1) => match name_data(ts, at1) {
            Err(m) => Err(m),
            Ok((name, at2)) => match consume(ts, at2, TokenView::Colon) {
                Err(m) => Err(m),
                Ok(at3) => match type_at(ts, at3) {
                    Err(m) => Err(m),
                    Ok((declared, at4)) => match consume(ts, at4, TokenView::Equals) {
                        Err(m) => Err(m),
                        Ok(at5) => if pos < at5 <= ts.len() {
                            match expression(ts, at5) {
                                Err(m) => Err(m),
                                Ok((initializer, q)) => Ok(
                                    (
                                        TreeView::Let {
                                            id: name,
                                            exp_type: Box::new(declared),
                                            exp: Box::new(initializer),
                                        },
                                        q,
                                    ),
                                ),
                            }
                        } else {
                            stalled()
                        },
                    },
                },
            },
        },
    }
}

/// A statement: a binding where `let` stands, else an expression.
pub open spec fn statement(ts: Seq<TokenView>, pos: int) -> Parsed<TreeView>
    decreases ts.len() - pos, 8nat,
{
    if 0 <= pos < ts.len() {
        if ts[pos] == TokenView::Let {
            binding(ts, pos)
        } else {
            expression(ts, pos)
        }
    } else {
        Err("Expected let or expression, got end of stream"@)
    }
}

/// The statements of a file from `pos` on, each with a semicolon behind it.
pub open spec fn file(ts: Seq<TokenView>, pos: int, found: Seq<TreeView>) -> Result<TreeView, Seq<char>>
    decreases ts.len() - pos,
{
    if 0 <= pos < ts.len() {
        match statement(ts, pos) {
            Err(m) => Err(m),
            Ok((s, p)) => match consume(ts, p, TokenView::Semicolon) {
                Err(m) => Err(m),
                Ok(q) => if pos < q <= ts.len() {
                    file(ts, q, found.push(s))
                } else {
                    Err("Parser made no progress"@)
                },
            },
        }
    } else {
        Ok(TreeView::File { statements: found })
    }
}

/// What was read ends behind where it started, and within the tokens.
pub open spec fn moves_on<T>(r: Parsed<T>, pos: int, len: nat) -> bool {
    match r {
        Ok((_, next)) => pos < next <= len,
        Err(_) => true,
    }
}

/// What was read ends at or behind where it started, and within the tokens.
pub open spec fn holds_on<T>(r: Parsed<T>, pos: int, len: nat) -> bool {
    match r {
        Ok((_, next)) => pos <= next <= len,
        Err(_) => true,
    }
}

proof fn lemma_product_rest_moves_on(ts: Seq<TokenView>, pos: int, found: Seq<TreeView>)
    ensures
        moves_on(product_rest(ts, pos, found), pos, ts.len()),
    decreases ts.len() - pos,
{
    if !peek(ts, pos, TokenView::RightRoundBracket) {
        if let Ok(at1) = consume(ts, pos, TokenView::Comma) {
            if let Ok((name, at2)) = name_data(ts, at1) {
                lemma_product_rest_moves_on(ts, at2, found.push(TreeView::IdentifierType { name }));
            }
        }
    }
}

proof fn lemma_function_type_moves_on(ts: Seq<TokenView>, pos: int)
    ensures
        moves_on(product_type(ts, pos), pos, ts.len()),
        moves_on(function_type(ts, pos), pos, ts.len()),
    decreases ts.len() - pos,
{
    if peek(ts, pos, TokenView::LeftRoundBracket) && !peek(ts, pos + 1, TokenView::RightRoundBracket) {
        if let Ok((name, p)) = name_data(ts, pos + 1) {
            lemma_product_rest_moves_on(ts, p, seq![TreeView::IdentifierType { name }]);
        }
    }
    if let Ok((lhs, p)) = product_type(ts, pos) {
        if peek(ts, p, TokenView::RightArrow) {
            lemma_function_type_moves_on(ts, p + 1);
        }
    }
}

proof fn lemma_sum_rest_holds_on(ts: Seq<TokenView>, pos: int, found: Seq<TreeView>)
    requires
        pos <= ts.len(),
    ensures
        holds_on(sum_rest(ts, pos, found), pos, ts.len()),
    decreases ts.len() - pos,
{
    if peek(ts, pos, TokenView::Pipe) {
        lemma_function_type_moves_on(ts, pos + 1);
        if let Ok((t, q)) = function_type(ts, pos + 1) {
            lemma_sum_rest_holds_on(ts, q, found.push(t));
        }
    }
}

/// A type that was read ends behind where it started.
pub proof fn lemma_type_moves_on(ts: Seq<TokenView>, pos: int)
    ensures
        moves_on(type_at(ts, pos), pos, ts.len()),
{
    lemma_function_type_moves_on(ts, pos);
    if let Ok((first, p)) = function_type(ts, pos) {
        lemma_sum_rest_holds_on(ts, p, seq![first]);
    }
}

proof fn lemma_names_rest_holds_on(ts: Seq<TokenView>, pos: int, found: Seq<Seq<char>>)
    requires
        pos <= ts.len(),
    ensures
        holds_on(names_rest(ts, pos, found), pos, ts.len()),
    decreases ts.len() - pos,
{
    if peek(ts, pos, TokenView::Comma) {
        if let Ok((name, q)) = name_data(ts, pos + 1) {
            lemma_names_rest_holds_on(ts, q, found.push(name));
        }
    }
}

proof fn lemma_parameters_move_on(ts: Seq<TokenView>, pos: int)
    ensures
        moves_on(parameters(ts, pos), pos, ts.len()),
{
    if peek(ts, pos, TokenView::LeftRoundBracket) && !peek(ts, pos + 1, TokenView::RightRoundBracket) {
        if let Ok((name, p)) = name_data(ts, pos + 1) {
            lemma_names_rest_holds_on(ts, p, seq![name]);
        }
    }
}

/// An expression that was read ends behind where it started. So does every
/// part of it, which is why no step of the parser stalls.
pub proof fn lemma_expression_moves_on(ts: Seq<TokenView>, pos: int)
    ensures
        moves_on(expression(ts, pos), pos, ts.len()),
    decreases ts.len() - pos, 6nat,
{
    lemma_operation_moves_on(ts, pos);
}

proof fn lemma_operation_moves_on(ts: Seq<TokenView>, pos: int)
    ensures
        moves_on(operation(ts, pos), pos, ts.len()),
    decreases ts.len() - pos, 5nat,
{
    lemma_application_moves_on(ts, pos);
    if let Ok((lhs, p)) = application(ts, pos) {
        if operator(ts, p).is_some() {
            lemma_operation_moves_on(ts, p + 1);
        }
    }
}

proof fn lemma_application_moves_on(ts: Seq<TokenView>, pos: int)
    ensures
        moves_on(application(ts, pos), pos, ts.len()),
    decreases ts.len() - pos, 4nat,
{
    lemma_lambda_moves_on(ts, pos);
    if let Ok((first, p)) = lambda(ts, pos) {
        if starts_argument(ts, p) {
            lemma_lambda_moves_on(ts, p);
        }
    }
}

proof fn lemma_lambda_moves_on(ts: Seq<TokenView>, pos: int)
    ensures
        moves_on(lambda(ts, pos), pos, ts.len()),
    decreases ts.len() - pos, 3nat,
{
    if peek(ts, pos, TokenView::Backslash) {
        lemma_parameters_move_on(ts, pos + 1);
        if let Ok((names, p)) = parameters(ts, pos + 1) {
            if let Ok(q) = consume(ts, p, TokenView::FatRightArrow) {
                lemma_expression_moves_on(ts, q);
            }
        }
    } else {
        lemma_value_moves_on(ts, pos);
    }
}

proof fn lemma_value_moves_on(ts: Seq<TokenView>, pos: int)
    ensures
        moves_on(value(ts, pos), pos, ts.len()),
    decreases ts.len() - pos, 2nat,
{
    if 0 <= pos < ts.len() {
        match ts[pos] {
            TokenView::LeftSquareBracket => {
                lemma_list_moves_on(ts, pos);
            },
            TokenView::LeftRoundBracket => {
                lemma_list_moves_on(ts, pos);
            },
            TokenView::LeftCurlyBracket => {
                lemma_block_moves_on(ts, pos);
            },
            _ => {},
        }
    }
}

proof fn lemma_items_rest_moves_on(ts: Seq<TokenView>, pos: int, close: TokenView, found: Seq<TreeView>)
    ensures
        moves_on(items_rest(ts, pos, close, found), pos, ts.len()),
    decreases ts.len() - pos, 0nat,
{
    if !peek(ts, pos, close) {
        if let Ok(p) = consume(ts, pos, TokenView::Comma) {
            lemma_expression_moves_on(ts, p);
            if let Ok((t, q)) = expression(ts, p) {
                lemma_items_rest_moves_on(ts, q, close, found.push(t));
            }
        }
    }
}

proof fn lemma_list_moves_on(ts: Seq<TokenView>, pos: int)
    ensures
        moves_on(array(ts, pos), pos, ts.len()),
        moves_on(tuple(ts, pos), pos, ts.len()),
    decreases ts.len() - pos, 1nat,
{
    if 0 <= pos < ts.len() {
        lemma_expression_moves_on(ts, pos + 1);
        if let Ok((first, q)) = expression(ts, pos + 1) {
            lemma_items_rest_moves_on(ts, q, TokenView::RightSquareBracket, seq![first]);
            lemma_items_rest_moves_on(ts, q, TokenView::RightRoundBracket, seq![first]);
        }
    }
}

proof fn lemma_statements_rest_moves_on(ts: Seq<TokenView>, pos: int, found: Seq<TreeView>)
    ensures
        moves_on(statements_rest(ts, pos, found), pos, ts.len()),
    decreases ts.len() - pos, 0nat,
{
    if !peek(ts, pos, TokenView::RightCurlyBracket) {
        if let Ok(p) = consume(ts, pos, TokenView::Semicolon) {
            lemma_statement_moves_on(ts, p);
            if let Ok((t, q)) = statement(ts, p) {
                lemma_statements_rest_moves_on(ts, q, found.push(t));
            }
        }
    }
}

proof fn lemma_block_moves_on(ts: Seq<TokenView>, pos: int)
    ensures
        moves_on(block(ts, pos), pos, ts.len()),
    decreases ts.len() - pos, 1nat,
{
    if 0 <= pos < ts.len() {
        lemma_statement_moves_on(ts, pos + 1);
        if let Ok((first, q)) = statement(ts, pos + 1) {
            lemma_statements_rest_moves_on(ts, q, seq![first]);
        }
    }
}

proof fn lemma_binding_moves_on(ts: Seq<TokenView>, pos: int)
    ensures
        moves_on(binding(ts, pos), pos, ts.len()),
    decreases ts.len() - pos, 7nat,
{
    if let Ok(at1) = consume(ts, pos, TokenView::Let) {
        if let Ok((name, at2)) = name_data(ts, at1) {
            if let Ok(at3) = consume(ts, at2, TokenView::Colon) {
                lemma_type_moves_on(ts, at3);
                if let Ok((declared, at4)) = type_at(ts, at3) {
                    if let Ok(at5) = consume(ts, at4, TokenView::Equals) {
                        lemma_expression_moves_on(ts, at5);
                    }
                }
            }
        }
    }
}

/// A statement that was read ends behind where it started.
pub proof fn lemma_statement_moves_on(ts: Seq<TokenView>, pos: int)
    ensures
        moves_on(statement(ts, pos), pos, ts.len()),
    decreases ts.len() - pos, 8nat,
{
    if 0 <= pos < ts.len() {
        if ts[pos] == TokenView::Let {
            lemma_binding_moves_on(ts, pos);
        } else {
            lemma_expression_moves_on(ts, pos);
        }
    }
}

/// What is read as a file is a file node.
pub proof fn lemma_file_is_a_file(ts: Seq<TokenView>, pos: int, found: Seq<TreeView>)
    ensures
        file(ts, pos, found) matches Ok(t) ==> t is File,
    decreases ts.len() - pos,
{
    if 0 <= pos < ts.len() {
        if let Ok((s, at)) = statement(ts, pos) {
            if let Ok(q) = consume(ts, at, TokenView::Semicolon) {
                if pos < q <= ts.len() {
                    lemma_file_is_a_file(ts, q, found.push(s));
                }
            }
        }
    }
}

/// A place in a list of tokens.
pub struct Cursor<'a> {
    tokens: &'a Vec<Token>,
    position: usize,
}

impl<'a> Cursor<'a> {
    /// The tokens read from.
    pub closed spec fn tokens(&self) -> Seq<TokenView> {
        tokens_view(self.tokens@)
    }

    /// The index of the token that comes next.
    pub closed spec fn position(&self) -> int {
        self.position as int
    }

    /// The cursor stands within its tokens or right behind them.
    pub closed spec fn wf(&self) -> bool {
        self.position <= self.tokens@.len()
    }

    /// How many tokens are still to come.
    pub open spec fn remaining(&self) -> int {
        self.tokens().len() - self.position()
    }

    /// A cursor in front of the first token.
    pub fn new(tokens: &'a Vec<Token>) -> (it: Cursor<'a>)
        ensures
            it.wf(),
            it.tokens() == tokens_view(tokens@),
            it.position() == 0,
    {
        Cursor { tokens: tokens, position: 0 }
    }

    /// The token that comes next, if there is one.
    pub fn peek(&self) -> (r: Option<&'a Token>)
        requires
            self.wf(),
        ensures
            match r {
                Some(t) => self.position() < self.tokens().len() && t@ == self.tokens()[self.position()],
                None => self.position() >= self.tokens().len(),
            },
    {
        if self.position < self.tokens.len() {
            Some(&self.tokens[self.position])
        } else {
            None
        }
    }

    /// Hands out the token that comes next and moves behind it.
    pub fn next(&mut self) -> (r: Option<&'a Token>)
        requires
            old(self).wf(),
        ensures
            final(self).wf(),
            final(self).tokens() == old(self).tokens(),
            match r {
                Some(t) => old(self).position() < old(self).tokens().len() && t@ == old(self).tokens()[old(
                    self,
                ).position()] && final(self).position() == old(self).position() + 1,
                None => old(self).position() >= old(self).tokens().len() && final(self).position()
                    == old(self).position(),
            },
    {
        if self.position < self.tokens.len() {
            let t = &self.tokens[self.position];
            self.position += 1;
            Some(t)
        } else {
            None
        }
    }
}

/// The outcome `r` of a step that started at `before` and left the cursor at
/// `after` is what `expected` says. A step that succeeds has moved on.
pub open spec fn parsed_as(
    r: Result<Tree, Failure>,
    before: Cursor,
    after: Cursor,
    expected: Parsed<TreeView>,
) -> bool {
    &&& after.wf()
    &&& after.tokens() == before.tokens()
    &&& match r {
        Ok(t) => expected == Ok::<(TreeView, int), Seq<char>>((t@, after.position()))
            && before.position() < after.position(),
        Err(f) => expected == Err::<(TreeView, int), Seq<char>>(f.message@),
    }
}

fn peeks(it: &Cursor, t: &Token) -> (r: bool)
    requires
        it.wf(),
    ensures
        r == peek(it.tokens(), it.position(), t@),
{
    match it.peek() {
        Some(t2) => t.equals(t2),
        None => false,
    }
}

/// Tells whether the token `t` comes next.
pub fn peek_token(it: &Cursor, t: Token) -> (r: bool)
    requires
        it.wf(),
    ensures
        r == peek(it.tokens(), it.position(), t@),
{
    peeks(it, &t)
}

/// Moves behind the token `t`, which has to come next.
pub fn consume_token(it: &mut Cursor, t: Token) -> (r: Result<(), Failure>)
    requires
        old(it).wf(),
    ensures
        final(it).wf(),
        final(it).tokens() == old(it).tokens(),
        match r {
            Ok(_) => consume(old(it).tokens(), old(it).position(), t@) == Ok::<int, Seq<char>>(
                final(it).position(),
            ) && final(it).position() == old(it).position() + 1,
            Err(f) => consume(old(it).tokens(), old(it).position(), t@) == Err::<int, Seq<char>>(
                f.message@,
            ),
        },
{
    match it.next() {
        Some(t2) => {
            if t.equals(t2) {
                Ok(())
            } else {
                let mut m = String::from_str("Expected ");
                m.append(token_debug_string(&t).as_str());
                m.append(", got ");
                m.append(token_debug_string(t2).as_str());
                Err(Failure::from(m))
            }
        },
        None => {
            let mut m = String::from_str("Expected ");
            m.append(token_debug_string(&t).as_str());
            m.append(", got nothing");
            Err(Failure::from(m))
        },
    }
}

/// Reads an identifier as a name.
pub fn parse_name_data(it: &mut Cursor) -> (r: Result<Name, Failure>)
    requires
        old(it).wf(),
    ensures
        final(it).wf(),
        final(it).tokens() == old(it).tokens(),
        match r {
            Ok(n) => name_data(old(it).tokens(), old(it).position()) == Ok::<
                (Seq<char>, int),
                Seq<char>,
            >((n.text@, final(it).position())) && final(it).position() == old(it).position() + 1,
            Err(f) => name_data(old(it).tokens(), old(it).position()) == Err::<
                (Seq<char>, int),
                Seq<char>,
            >(f.message@),
        },
{
    match it.next() {
        Some(Token::Identifier(i)) => Ok(Name { text: i.clone() }),
        Some(a) => Err(
            Failure::from(
                String::from_str("Expected identifier, got ").concat(token_debug_string(a).as_str()),
            ),
        ),
        None => Err(Failure::new("Expected identifier, got nothing")),
    }
}

/// Reads a quoted text.
pub fn parse_quoted(it: &mut Cursor) -> (r: Result<Text, Failure>)
    requires
        old(it).wf(),
    ensures
        final(it).wf(),
        final(it).tokens() == old(it).tokens(),
        match r {
            Ok(t) => quoted(old(it).tokens(), old(it).position()) == Ok::<(Seq<char>, int), Seq<char>>(
                (t.text@, final(it).position()),
            ) && final(it).position() == old(it).position() + 1,
            Err(f) => quoted(old(it).tokens(), old(it).position()) == Err::<
                (Seq<char>, int),
                Seq<char>,
            >(f.message@),
        },
{
    match it.next() {
        Some(Token::Quoted(i)) => Ok(Text { text: i.clone() }),
        Some(a) => Err(
            Failure::from(
                String::from_str("Expected string, got ").concat(token_debug_string(a).as_str()),
            ),
        ),
        None => Err(Failure::new("Expected string, got nothing")),
    }
}

/// Reads an identifier.
pub fn parse_identifier(it: &mut Cursor) -> (r: Result<Identifier, Failure>)
    requires
        old(it).wf(),
    ensures
        final(it).wf(),
        final(it).tokens() == old(it).tokens(),
        match r {
            Ok(i) => name_data(old(it).tokens(), old(it).position()) == Ok::<
                (Seq<char>, int),
                Seq<char>,
            >((i.name.text@, final(it).position())) && final(it).position() == old(it).position() + 1,
            Err(f) => name_data(old(it).tokens(), old(it).position()) == Err::<
                (Seq<char>, int),
                Seq<char>,
            >(f.message@),
        },
{
    match parse_name_data(it) {
        Err(f) => Err(f),
        Ok(data) => Ok(Identifier { name: data }),
    }
}

/// Reads a type name.
pub fn parse_identifier_type(it: &mut Cursor) -> (r: Result<IdentifierType, Failure>)
    requires
        old(it).wf(),
    ensures
        final(it).wf(),
        final(it).tokens() == old(it).tokens(),
        match r {
            Ok(i) => name_data(old(it).tokens(), old(it).position()) == Ok::<
                (Seq<char>, int),
                Seq<char>,
            >((i.name.text@, final(it).position())) && final(it).position() == old(it).position() + 1,
            Err(f) => name_data(old(it).tokens(), old(it).position()) == Err::<
                (Seq<char>, int),
                Seq<char>,
            >(f.message@),
        },
{
    match parse_name_data(it) {
        Err(f) => Err(f),
        Ok(data) => Ok(IdentifierType { name: data }),
    }
}

/// Reads a product type.
pub fn parse_product_type(it: &mut Cursor) -> (r: Result<Tree, Failure>)
    requires
        old(it).wf(),
    ensures
        parsed_as(r, *old(it), *final(it), product_type(old(it).tokens(), old(it).position())),
{
    if peek_token(it, Token::LeftRoundBracket) {
        let _ = consume_token(it, Token::LeftRoundBracket);
        if peek_token(it, Token::RightRoundBracket) {
            let _ = consume_token(it, Token::RightRoundBracket);
            let elements: Vec<Tree> = Vec::new();
            assert(trees_view(elements) =~= Seq::<TreeView>::empty());
            return Ok(Tree::ProductType(ProductType { elements: elements }));
        }
        let mut res: Vec<Tree> = Vec::new();
        let t = match parse_identifier_type(it) {
            Err(f) => {
                return Err(f);
            },
            Ok(t) => t,
        };
        res.push(Tree::IdentifierType(t));
        let ghost ts = it.tokens();
        assert(trees_view(res) =~= seq![TreeView::IdentifierType { name: t.name.text@ }]);
        while !peek_token(it, Token::RightRoundBracket)
            invariant
                it.wf(),
                it.tokens() == ts,
                ts == old(it).tokens(),
                old(it).position() < it.position(),
                product_rest(ts, it.position(), trees_view(res)) == product_type(
                    ts,
                    old(it).position(),
                ),
            decreases it.remaining(),
        {
            match consume_token(it, Token::Comma) {
                Err(f) => {
                    return Err(f);
                },
                Ok(_) => {},
            }
            let t = match parse_identifier_type(it) {
                Err(f) => {
                    return Err(f);
                },
                Ok(t) => t,
            };
            let ghost before = trees_view(res);
            res.push(Tree::IdentifierType(t));
            assert(trees_view(res) =~= before.push(TreeView::IdentifierType { name: t.name.text@ }));
        }
        let _ = consume_token(it, Token::RightRoundBracket);
        if res.len() == 1 {
            assert(trees_view(res)[0] == res@[0]@);
            Ok(res.remove(0))
        } else {
            Ok(Tree::ProductType(ProductType { elements: res }))
        }
    } else {
        match parse_identifier_type(it) {
            Err(f) => Err(f),
            Ok(id) => Ok(Tree::IdentifierType(id)),
        }
    }
}

/// Reads a function type.
pub fn parse_function_type(it: &mut Cursor) -> (r: Result<Tree, Failure>)
    requires
        old(it).wf(),
    ensures
        parsed_as(r, *old(it), *final(it), function_type(old(it).tokens(), old(it).position())),
    decreases old(it).remaining(),
{
    let lhs = match parse_product_type(it) {
        Err(f) => {
            return Err(f);
        },
        Ok(t) => t,
    };
    if peek_token(it, Token::RightArrow) {
        let _ = consume_token(it, Token::RightArrow);
        match parse_function_type(it) {
            Err(f) => Err(f),
            Ok(rhs) => Ok(Tree::FunctionType(FunctionType { from: Box::new(lhs), to: Box::new(rhs) })),
        }
    } else {
        Ok(lhs)
    }
}

/// Reads a sum type.
pub fn parse_sum_type(it: &mut Cursor) -> (r: Result<Tree, Failure>)
    requires
        old(it).wf(),
    ensures
        parsed_as(r, *old(it), *final(it), sum_type(old(it).tokens(), old(it).position())),
{
    let mut res: Vec<Tree> = Vec::new();
    let p = match parse_function_type(it) {
        Err(f) => {
            return Err(f);
        },
        Ok(t) => t,
    };
    res.push(p);
    let ghost ts = it.tokens();
    assert(trees_view(res) =~= seq![p@]);
    while peek_token(it, Token::Pipe)
        invariant
            it.wf(),
            it.tokens() == ts,
            ts == old(it).tokens(),
            old(it).position() < it.position(),
            sum_rest(ts, it.position(), trees_view(res)) == sum_type(ts, old(it).position()),
        decreases it.remaining(),
    {
        let _ = consume_token(it, Token::Pipe);
        let p = match parse_function_type(it) {
            Err(f) => {
                return Err(f);
            },
            Ok(t) => t,
        };
        let ghost before = trees_view(res);
        res.push(p);
        assert(trees_view(res) =~= before.push(p@));
    }
    if res.len() == 1 {
        assert(trees_view(res)[0] == res@[0]@);
        Ok(res.remove(0))
    } else {
        Ok(Tree::SumType(SumType { options: res }))
    }
}

/// Reads an array type.
pub fn parse_array_type(it: &mut Cursor) -> (r: Result<Tree, Failure>)
    requires
        old(it).wf(),
    ensures
        parsed_as(r, *old(it), *final(it), array_type(old(it).tokens(), old(it).position())),
{
    match consume_token(it, Token::LeftSquareBracket) {
        Err(f) => {
            return Err(f);
        },
        Ok(_) => {},
    }
    let id = match parse_identifier_type(it) {
        Err(f) => {
            return Err(f);
        },
        Ok(t) => Tree::IdentifierType(t),
    };
    assert(id@ is IdentifierType);
    match consume_token(it, Token::Semicolon) {
        Err(f) => {
            return Err(f);
        },
        Ok(_) => {},
    }
    match parse_number(it) {
        Err(f) => Err(f),
        Ok(Tree::Number(n)) => {
            let length = #[verifier::truncate] (n.value as usize);
            match consume_token(it, Token::RightSquareBracket) {
                Err(f) => Err(f),
                Ok(_) => Ok(Tree::ArrayType(ArrayType { value_type: Box::new(id), length: length })),
            }
        },
        Ok(_) => Err(Failure::new("Expected array type length to be number")),
    }
}

/// Reads a type.
pub fn parse_type(it: &mut Cursor) -> (r: Result<Tree, Failure>)
    requires
        old(it).wf(),
    ensures
        parsed_as(r, *old(it), *final(it), type_at(old(it).tokens(), old(it).position())),
{
    if peek_token(it, Token::LeftSquareBracket) {
        parse_array_type(it)
    } else {
        parse_sum_type(it)
    }
}

/// Reads a number.
pub fn parse_number(it: &mut Cursor) -> (r: Result<Tree, Failure>)
    requires
        old(it).wf(),
    ensures
        parsed_as(r, *old(it), *final(it), number(old(it).tokens(), old(it).position())),
        r is Ok ==> final(it).position() == old(it).position() + 1,
{
    match it.next() {
        Some(Token::Number(i)) => Ok(Tree::Number(Number::from(*i))),
        _ => Err(Failure::new("Expected number")),
    }
}

/// Reads a truth value.
pub fn parse_bool(it: &mut Cursor) -> (r: Result<Tree, Failure>)
    requires
        old(it).wf(),
    ensures
        parsed_as(r, *old(it), *final(it), boolean(old(it).tokens(), old(it).position())),
{
    match it.next() {
        Some(Token::True) => Ok(Tree::Boolean(Boolean::from(true))),
        Some(Token::False) => Ok(Tree::Boolean(Boolean::from(false))),
        _ => Err(Failure::new("Expected bool")),
    }
}

/// Reads the expressions behind the first one of a list, up to the closing
/// bracket `close`, and adds them to `res`.
fn parse_items_rest(it: &mut Cursor, close: Token, res: &mut Vec<Tree>) -> (r: Result<(), Failure>)
    requires
        old(it).wf(),
    ensures
        final(it).wf(),
        final(it).tokens() == old(it).tokens(),
        match r {
            Ok(_) => items_rest(old(it).tokens(), old(it).position(), close@, trees_view(*old(res)))
                == Ok::<(Seq<TreeView>, int), Seq<char>>((trees_view(*final(res)), final(it).position()))
                && old(it).position() < final(it).position(),
            Err(f) => items_rest(old(it).tokens(), old(it).position(), close@, trees_view(*old(res)))
                == Err::<(Seq<TreeView>, int), Seq<char>>(f.message@),
        },
    decreases old(it).remaining(), 0nat,
{
    let ghost ts = it.tokens();
    while !peeks(it, &close)
        invariant
            it.wf(),
            it.tokens() == ts,
            ts == old(it).tokens(),
            old(it).position() <= it.position(),
            items_rest(ts, it.position(), close@, trees_view(*res)) == items_rest(
                ts,
                old(it).position(),
                close@,
                trees_view(*old(res)),
            ),
        decreases it.remaining(),
    {
        match consume_token(it, Token::Comma) {
            Err(f) => {
                return Err(f);
            },
            Ok(_) => {},
        }
        let t = match parse_expression(it) {
            Err(f) => {
                return Err(f);
            },
            Ok(t) => t,
        };
        let ghost before = trees_view(*res);
        res.push(t);
        assert(trees_view(*res) =~= before.push(t@));
    }
    match consume_token(it, close) {
        Err(f) => Err(f),
        Ok(_) => Ok(()),
    }
}

/// Reads an array.
pub fn parse_array(it: &mut Cursor) -> (r: Result<Tree, Failure>)
    requires
        old(it).wf(),
    ensures
        parsed_as(r, *old(it), *final(it), array(old(it).tokens(), old(it).position())),
    decreases old(it).remaining(), 1nat,
{
    match consume_token(it, Token::LeftSquareBracket) {
        Err(f) => {
            return Err(f);
        },
        Ok(_) => {},
    }
    let mut res: Vec<Tree> = Vec::new();
    assert(trees_view(res) =~= Seq::<TreeView>::empty());
    if peek_token(it, Token::RightSquareBracket) {
        let _ = consume_token(it, Token::RightSquareBracket);
        return Ok(Tree::Array(Array::from(res)));
    }
    let first = match parse_expression(it) {
        Err(f) => {
            return Err(f);
        },
        Ok(t) => t,
    };
    res.push(first);
    assert(trees_view(res) =~= seq![first@]);
    match parse_items_rest(it, Token::RightSquareBracket, &mut res) {
        Err(f) => Err(f),
        Ok(_) => Ok(Tree::Array(Array::from(res))),
    }
}

/// Reads a tuple.
pub fn parse_tuple(it: &mut Cursor) -> (r: Result<Tree, Failure>)
    requires
        old(it).wf(),
    ensures
        parsed_as(r, *old(it), *final(it), tuple(old(it).tokens(), old(it).position())),
    decreases old(it).remaining(), 1nat,
{
    match consume_token(it, Token::LeftRoundBracket) {
        Err(f) => {
            return Err(f);
        },
        Ok(_) => {},
    }
    let mut res: Vec<Tree> = Vec::new();
    assert(trees_view(res) =~= Seq::<TreeView>::empty());
    if peek_token(it, Token::RightRoundBracket) {
        let _ = consume_token(it, Token::RightRoundBracket);
        return Ok(Tree::Tuple(Tuple::from(res)));
    }
    let first = match parse_expression(it) {
        Err(f) => {
            return Err(f);
        },
        Ok(t) => t,
    };
    res.push(first);
    assert(trees_view(res) =~= seq![first@]);
    match parse_items_rest(it, Token::RightRoundBracket, &mut res) {
        Err(f) => Err(f),
        Ok(_) => {
            if res.len() == 1 {
                assert(trees_view(res)[0] == res@[0]@);
                Ok(res.remove(0))
            } else {
                Ok(Tree::Tuple(Tuple::from(res)))
            }
        },
    }
}

/// Reads a block.
pub fn parse_block(it: &mut Cursor) -> (r: Result<Tree, Failure>)
    requires
        old(it).wf(),
    ensures
        parsed_as(r, *old(it), *final(it), block(old(it).tokens(), old(it).position())),
    decreases old(it).remaining(), 1nat,
{
    match consume_token(it, Token::LeftCurlyBracket) {
        Err(f) => {
            return Err(f);
        },
        Ok(_) => {},
    }
    let mut res: Vec<Tree> = Vec::new();
    assert(trees_view(res) =~= Seq::<TreeView>::empty());
    if peek_token(it, Token::RightCurlyBracket) {
        let _ = consume_token(it, Token::RightCurlyBracket);
        return Ok(Tree::Block(Block::from(res)));
    }
    let first = match parse_statement(it) {
        Err(f) => {
            return Err(f);
        },
        Ok(t) => t,
    };
    res.push(first);
    assert(trees_view(res) =~= seq![first@]);
    let ghost ts = it.tokens();
    let ghost start = it.position();
    let ghost head = first@;
    while !peek_token(it, Token::RightCurlyBracket)
        invariant
            it.wf(),
            it.tokens() == ts,
            ts == old(it).tokens(),
            old(it).position() < start <= it.position(),
            statement(ts, old(it).position() + 1) == Ok::<(TreeView, int), Seq<char>>((head, start)),
            consume(ts, old(it).position(), TokenView::LeftCurlyBracket) == Ok::<int, Seq<char>>(
                old(it).position() + 1,
            ),
            !peek(ts, old(it).position() + 1, TokenView::RightCurlyBracket),
            statements_rest(ts, it.position(), trees_view(res)) == statements_rest(
                ts,
                start,
                seq![head],
            ),
        decreases it.remaining(),
    {
        match consume_token(it, Token::Semicolon) {
            Err(f) => {
                return Err(f);
            },
            Ok(_) => {},
        }
        let t = match parse_statement(it) {
            Err(f) => {
                return Err(f);
            },
            Ok(t) => t,
        };
        let ghost before = trees_view(res);
        res.push(t);
        assert(trees_view(res) =~= before.push(t@));
    }
    let _ = consume_token(it, Token::RightCurlyBracket);
    if res.len() == 1 {
        assert(trees_view(res)[0] == res@[0]@);
        Ok(res.remove(0))
    } else {
        Ok(Tree::Block(Block::from(res)))
    }
}

/// Reads a value.
pub fn parse_value(it: &mut Cursor) -> (r: Result<Tree, Failure>)
    requires
        old(it).wf(),
    ensures
        parsed_as(r, *old(it), *final(it), value(old(it).tokens(), old(it).position())),
    decreases old(it).remaining(), 2nat,
{
    match it.peek() {
        Some(Token::Identifier(_)) => match parse_identifier(it) {
            Err(f) => Err(f),
            Ok(i) => Ok(Tree::Identifier(i)),
        },
        Some(Token::Quoted(_)) => match parse_quoted(it) {
            Err(f) => Err(f),
            Ok(t) => Ok(Tree::Text(t)),
        },
        Some(Token::Number(_)) => parse_number(it),
        Some(Token::LeftSquareBracket) => parse_array(it),
        Some(Token::LeftRoundBracket) => parse_tuple(it),
        Some(Token::LeftCurlyBracket) => parse_block(it),
        Some(v) => {
            let mut m = String::from_str("Expected value, got Some(");
            m.append(token_debug_string(v).as_str());
            m.append(")");
            Err(Failure::from(m))
        },
        None => Err(Failure::new("Expected value, got None")),
    }
}

/// Reads the parameters of a lambda.
fn parse_parameters(it: &mut Cursor) -> (r: Result<Vec<Identifier>, Failure>)
    requires
        old(it).wf(),
    ensures
        final(it).wf(),
        final(it).tokens() == old(it).tokens(),
        match r {
            Ok(ids) => parameters(old(it).tokens(), old(it).position()) == Ok::<
                (Seq<Seq<char>>, int),
                Seq<char>,
            >((identifiers_view(ids@), final(it).position())) && old(it).position() < final(it).position(),
            Err(f) => parameters(old(it).tokens(), old(it).position()) == Err::<
                (Seq<Seq<char>>, int),
                Seq<char>,
            >(f.message@),
        },
{
    if peek_token(it, Token::LeftRoundBracket) {
        let _ = consume_token(it, Token::LeftRoundBracket);
        let mut res: Vec<Identifier> = Vec::new();
        assert(identifiers_view(res@) =~= Seq::<Seq<char>>::empty());
        if !peek_token(it, Token::RightRoundBracket) {
            let first = match parse_identifier(it) {
                Err(f) => {
                    return Err(f);
                },
                Ok(i) => i,
            };
            res.push(first);
            assert(identifiers_view(res@) =~= seq![first.name.text@]);
            let ghost start = it.position();
            let ghost ts = it.tokens();
            let ghost head = first.name.text@;
            while peek_token(it, Token::Comma)
                invariant
                    it.wf(),
                    it.tokens() == ts,
                    ts == old(it).tokens(),
                    start == old(it).position() + 2,
                    start <= it.position(),
                    peek(ts, old(it).position(), TokenView::LeftRoundBracket),
                    !peek(ts, old(it).position() + 1, TokenView::RightRoundBracket),
                    name_data(ts, old(it).position() + 1) == Ok::<(Seq<char>, int), Seq<char>>(
                        (head, start),
                    ),
                    names_rest(ts, it.position(), identifiers_view(res@)) == names_rest(
                        ts,
                        start,
                        seq![head],
                    ),
                decreases it.remaining(),
            {
                let _ = consume_token(it, Token::Comma);
                let next = match parse_identifier(it) {
                    Err(f) => {
                        return Err(f);
                    },
                    Ok(i) => i,
                };
                let ghost before = identifiers_view(res@);
                res.push(next);
                assert(identifiers_view(res@) =~= before.push(next.name.text@));
            }
        }
        match consume_token(it, Token::RightRoundBracket) {
            Err(f) => Err(f),
            Ok(_) => Ok(res),
        }
    } else {
        match parse_identifier(it) {
            Err(f) => Err(f),
            Ok(i) => {
                let mut res: Vec<Identifier> = Vec::new();
                res.push(i);
                assert(identifiers_view(res@) =~= seq![i.name.text@]);
                Ok(res)
            },
        }
    }
}

/// Reads a lambda or a value.
pub fn parse_lambda(it: &mut Cursor) -> (r: Result<Tree, Failure>)
    requires
        old(it).wf(),
    ensures
        parsed_as(r, *old(it), *final(it), lambda(old(it).tokens(), old(it).position())),
    decreases old(it).remaining(), 3nat,
{
    if peek_token(it, Token::Backslash) {
        let _ = consume_token(it, Token::Backslash);
        let param_list = match parse_parameters(it) {
            Err(f) => {
                return Err(f);
            },
            Ok(p) => p,
        };
        match consume_token(it, Token::FatRightArrow) {
            Err(f) => {
                return Err(f);
            },
            Ok(_) => {},
        }
        match parse_expression(it) {
            Err(f) => Err(f),
            Ok(body) => Ok(Tree::Lambda(Lambda { parameters: param_list, body: Box::new(body) })),
        }
    } else {
        parse_value(it)
    }
}

/// Reads an application or what stands in its place.
pub fn parse_application(it: &mut Cursor) -> (r: Result<Tree, Failure>)
    requires
        old(it).wf(),
    ensures
        parsed_as(r, *old(it), *final(it), application(old(it).tokens(), old(it).position())),
    decreases old(it).remaining(), 4nat,
{
    let first = match parse_lambda(it) {
        Err(f) => {
            return Err(f);
        },
        Ok(t) => t,
    };
    let applied = match it.peek() {
        Some(Token::LeftRoundBracket) => true,
        Some(Token::Number(_)) => true,
        Some(Token::Identifier(_)) => true,
        Some(Token::LeftSquareBracket) => true,
        Some(Token::Quoted(_)) => true,
        _ => false,
    };
    if applied {
        match parse_lambda(it) {
            Err(f) => Err(f),
            Ok(second) => Ok(Tree::App(App { fn_exp: Box::new(first), param_exp: Box::new(second) })),
        }
    } else {
        Ok(first)
    }
}

/// Reads an operation or what stands in its place.
pub fn parse_operation(it: &mut Cursor) -> (r: Result<Tree, Failure>)
    requires
        old(it).wf(),
    ensures
        parsed_as(r, *old(it), *final(it), operation(old(it).tokens(), old(it).position())),
    decreases old(it).remaining(), 5nat,
{
    let lhs = match parse_application(it) {
        Err(f) => {
            return Err(f);
        },
        Ok(t) => t,
    };
    let op_type = if peek_token(it, Token::Mul) {
        BinOpType::Mult
    } else if peek_token(it, Token::Plus) {
        BinOpType::Plus
    } else if peek_token(it, Token::ArrIndex) {
        BinOpType::ArrIndex
    } else {
        return Ok(lhs);
    };
    let _ = it.next();
    match parse_operation(it) {
        Err(f) => Err(f),
        Ok(rhs) => Ok(Tree::BinOp(BinOp { lhs: Box::new(lhs), rhs: Box::new(rhs), op_type: op_type })),
    }
}

/// Reads an expression.
pub fn parse_expression(it: &mut Cursor) -> (r: Result<Tree, Failure>)
    requires
        old(it).wf(),
    ensures
        parsed_as(r, *old(it), *final(it), expression(old(it).tokens(), old(it).position())),
    decreases old(it).remaining(), 6nat,
{
    parse_operation(it)
}

/// Reads a binding.
pub fn parse_let(it: &mut Cursor) -> (r: Result<Tree, Failure>)
    requires
        old(it).wf(),
    ensures
        parsed_as(r, *old(it), *final(it), binding(old(it).tokens(), old(it).position())),
    decreases old(it).remaining(), 7nat,
{
    match consume_token(it, Token::Let) {
        Err(f) => {
            return Err(f);
        },
        Ok(_) => {},
    }
    let i = match parse_identifier(it) {
        Err(f) => {
            return Err(f);
        },
        Ok(i) => i,
    };
    match consume_token(it, Token::Colon) {
        Err(f) => {
            return Err(f);
        },
        Ok(_) => {},
    }
    let t = match parse_type(it) {
        Err(f) => {
            return Err(f);
        },
        Ok(t) => t,
    };
    match consume_token(it, Token::Equals) {
        Err(f) => {
            return Err(f);
        },
        Ok(_) => {},
    }
    match parse_expression(it) {
        Err(f) => Err(f),
        Ok(b) => Ok(Tree::Let(Let { id: i, exp_type: Box::new(t), exp: Box::new(b) })),
    }
}

/// Reads a statement.
pub fn parse_statement(it: &mut Cursor) -> (r: Result<Tree, Failure>)
    requires
        old(it).wf(),
    ensures
        parsed_as(r, *old(it), *final(it), statement(old(it).tokens(), old(it).position())),
    decreases old(it).remaining(), 8nat,
{
    match it.peek() {
        Some(Token::Let) => parse_let(it),
        None => Err(Failure::new("Expected let or expression, got end of stream")),
        _ => parse_expression(it),
    }
}

/// Reads statements, each with a semicolon behind it, to the end of the
/// tokens.
pub fn parse_file(it: &mut Cursor) -> (r: Result<Tree, Failure>)
    requires
        old(it).wf(),
    ensures
        match r {
            Ok(t) => file(old(it).tokens(), old(it).position(), Seq::empty()) == Ok::<
                TreeView,
                Seq<char>,
            >(t@),
            Err(f) => file(old(it).tokens(), old(it).position(), Seq::empty()) == Err::<
                TreeView,
                Seq<char>,
            >(f.message@),
        },
{
    let mut funcs: Vec<Tree> = Vec::new();
    let ghost ts = it.tokens();
    assert(trees_view(funcs) =~= Seq::<TreeView>::empty());
    while it.peek().is_some()
        invariant
            it.wf(),
            it.tokens() == ts,
            ts == old(it).tokens(),
            file(ts, it.position(), trees_view(funcs)) == file(ts, old(it).position(), Seq::empty()),
        decreases it.remaining(),
    {
        let s = match parse_statement(it) {
            Err(f) => {
                return Err(f);
            },
            Ok(t) => t,
        };
        match consume_token(it, Token::Semicolon) {
            Err(f) => {
                return Err(f);
            },
            Ok(_) => {},
        }
        let ghost before = trees_view(funcs);
        funcs.push(s);
        assert(trees_view(funcs) =~= before.push(s@));
    }
    Ok(Tree::File(File { statements: funcs }))
}

/// Builds the surface tree of a program from its tokens. The tree is a file.
pub fn parse(tokens: &Vec<Token>) -> (r: Result<Tree, Failure>)
    ensures
        match r {
            Ok(t) => file(tokens_view(tokens@), 0, Seq::empty()) == Ok::<TreeView, Seq<char>>(t@)
                && t@ is File,
            Err(f) => file(tokens_view(tokens@), 0, Seq::empty()) == Err::<TreeView, Seq<char>>(
                f.message@,
            ),
        },
{
    let mut i = Cursor::new(tokens);
    proof {
        lemma_file_is_a_file(tokens_view(tokens@), 0, Seq::empty());
    }
    parse_file(&mut i)
}

} // verus!
