//! The surface tree, as the parser hands it over. Every node owns its
//! children; the tree is never changed after it was built.
use vstd::prelude::*;
use vstd::string::*;

verus! {

/// An identifier as a text. Names are the same if their texts are.
#[derive(Debug, PartialEq, Eq, Hash, Clone)]
pub struct Name {
    pub text: String,
}

impl Name {
    pub fn from(s: &str) -> (n: Name)
        ensures
            n.text@ == s@,
    {
        Name { text: String::from_str(s) }
    }
}

/// A name used as an expression.
#[derive(Debug)]
pub struct Identifier {
    pub name: Name,
}

/// An integer literal.
#[derive(Debug, Clone)]
pub struct Number {
    pub value: i64,
}

impl Number {
    pub fn from(v: i64) -> (n: Number)
        ensures
            n.value == v,
    {
        Number { value: v }
    }
}

/// A truth value literal.
#[derive(Debug, Clone)]
pub struct Boolean {
    pub value: bool,
}

impl Boolean {
    pub fn from(v: bool) -> (b: Boolean)
        ensures
            b.value == v,
    {
        Boolean { value: v }
    }
}

/// A quoted text.
#[derive(Debug, Clone)]
pub struct Text {
    pub text: String,
}

/// Expressions between round brackets.
#[derive(Debug)]
pub struct Tuple {
    pub elements: Vec<Tree>,
}

impl Tuple {
    pub fn from(elems: Vec<Tree>) -> (t: Tuple)
        ensures
            t.elements == elems,
    {
        Tuple { elements: elems }
    }
}

/// Expressions between square brackets.
#[derive(Debug)]
pub struct Array {
    pub elements: Vec<Tree>,
}

impl Array {
    pub fn from(elems: Vec<Tree>) -> (a: Array)
        ensures
            a.elements == elems,
    {
        Array { elements: elems }
    }
}

/// Statements between curly brackets.
#[derive(Debug)]
pub struct Block {
    pub statements: Vec<Tree>,
}

impl Block {
    pub fn from(stmts: Vec<Tree>) -> (b: Block)
        ensures
            b.statements == stmts,
    {
        Block { statements: stmts }
    }
}

/// A function without a name: its parameters and its body.
#[derive(Debug)]
pub struct Lambda {
    pub parameters: Vec<Identifier>,
    pub body: Box<Tree>,
}

/// A function applied to an argument.
#[derive(Debug)]
pub struct App {
    pub fn_exp: Box<Tree>,
    pub param_exp: Box<Tree>,
}

/// A whole program: its statements, in order.
#[derive(Debug)]
pub struct File {
    pub statements: Vec<Tree>,
}

/// A binding of a name, with its declared type and its initializer.
#[derive(Debug)]
pub struct Let {
    pub id: Identifier,
    pub exp_type: Box<Tree>,
    pub exp: Box<Tree>,
}

/// An operator between two expressions.
#[derive(Debug)]
pub struct BinOp {
    pub lhs: Box<Tree>,
    pub rhs: Box<Tree>,
    pub op_type: BinOpType,
}

/// The binary operators: product, sum and array index.
#[derive(Debug, Copy, Clone)]
pub enum BinOpType {
    Mult,
    Plus,
    ArrIndex,
}

/// Types with bars between them.
#[derive(Debug)]
pub struct SumType {
    pub options: Vec<Tree>,
}

/// Types between round brackets.
#[derive(Debug)]
pub struct ProductType {
    pub elements: Vec<Tree>,
}

/// A name used as a type.
#[derive(Debug)]
pub struct IdentifierType {
    pub name: Name,
}

/// Two types with an arrow between them.
#[derive(Debug)]
pub struct FunctionType {
    pub from: Box<Tree>,
    pub to: Box<Tree>,
}

/// An element type and a length between square brackets.
#[derive(Debug)]
pub struct ArrayType {
    pub value_type: Box<Tree>,
    pub length: usize,
}

/// A node of the surface tree: a statement, an expression or a type.
#[derive(Debug)]
pub enum Tree {
    File(File),
    Let(Let),
    Identifier(Identifier),
    BinOp(BinOp),
    Lambda(Lambda),
    App(App),
    Number(Number),
    Boolean(Boolean),
    Text(Text),
    Tuple(Tuple),
    Array(Array),
    Block(Block),
    SumType(SumType),
    ProductType(ProductType),
    IdentifierType(IdentifierType),
    FunctionType(FunctionType),
    ArrayType(ArrayType),
    UnitType,
}

/// A surface tree as a mathematical value.
#[allow(inconsistent_fields)]
pub enum TreeView {
    File { statements: Seq<TreeView> },
    Let { id: Seq<char>, exp_type: Box<TreeView>, exp: Box<TreeView> },
    Identifier { name: Seq<char> },
    BinOp { lhs: Box<TreeView>, rhs: Box<TreeView>, op_type: BinOpType },
    Lambda { parameters: Seq<Seq<char>>, body: Box<TreeView> },
    App { fn_exp: Box<TreeView>, param_exp: Box<TreeView> },
    Number { value: i64 },
    Boolean { value: bool },
    Text { text: Seq<char> },
    Tuple { elements: Seq<TreeView> },
    Array { elements: Seq<TreeView> },
    Block { statements: Seq<TreeView> },
    SumType { options: Seq<TreeView> },
    ProductType { elements: Seq<TreeView> },
    IdentifierType { name: Seq<char> },
    FunctionType { from: Box<TreeView>, to: Box<TreeView> },
    ArrayType { value_type: Box<TreeView>, length: usize },
    UnitType,
}

/// The texts of a list of identifiers, in order.
pub open spec fn identifiers_view(ids: Seq<Identifier>) -> Seq<Seq<char>> {
    ids.map_values(|i: Identifier| i.name.text@)
}

/// The mathematical value of a surface tree.
pub open spec fn tree_view(t: Tree) -> TreeView
    decreases t,
{
    match t {
        Tree::File(n) => TreeView::File { statements: trees_view(n.statements) },
        Tree::Let(n) => TreeView::Let {
            id: n.id.name.text@,
            exp_type: Box::new(tree_view(*n.exp_type)),
            exp: Box::new(tree_view(*n.exp)),
        },
        Tree::Identifier(n) => TreeView::Identifier { name: n.name.text@ },
        Tree::BinOp(n) => TreeView::BinOp {
            lhs: Box::new(tree_view(*n.lhs)),
            rhs: Box::new(tree_view(*n.rhs)),
            op_type: n.op_type,
        },
        Tree::Lambda(n) => TreeView::Lambda {
            parameters: identifiers_view(n.parameters@),
            body: Box::new(tree_view(*n.body)),
        },
        Tree::App(n) => TreeView::App {
            fn_exp: Box::new(tree_view(*n.fn_exp)),
            param_exp: Box::new(tree_view(*n.param_exp)),
        },
        Tree::Number(n) => TreeView::Number { value: n.value },
        Tree::Boolean(n) => TreeView::Boolean { value: n.value },
        Tree::Text(n) => TreeView::Text { text: n.text@ },
        Tree::Tuple(n) => TreeView::Tuple { elements: trees_view(n.elements) },
        Tree::Array(n) => TreeView::Array { elements: trees_view(n.elements) },
        Tree::Block(n) => TreeView::Block { statements: trees_view(n.statements) },
        Tree::SumType(n) => TreeView::SumType { options: trees_view(n.options) },
        Tree::ProductType(n) => TreeView::ProductType { elements: trees_view(n.elements) },
        Tree::IdentifierType(n) => TreeView::IdentifierType { name: n.name.text@ },
        Tree::FunctionType(n) => TreeView::FunctionType {
            from: Box::new(tree_view(*n.from)),
            to: Box::new(tree_view(*n.to)),
        },
        Tree::ArrayType(n) => TreeView::ArrayType {
            value_type: Box::new(tree_view(*n.value_type)),
            length: n.length,
        },
        Tree::UnitType => TreeView::UnitType,
    }
}

/// The mathematical values of a list of trees, in order.
pub open spec fn trees_view(ts: Vec<Tree>) -> Seq<TreeView>
    decreases ts,
{
    Seq::new(
        ts.len() as nat,
        |i: int|
            if 0 <= i < ts.len() {
                tree_view(ts[i])
            } else {
                TreeView::UnitType
            },
    )
}

impl View for Tree {
    type V = TreeView;

    open spec fn view(&self) -> TreeView {
        tree_view(*self)
    }
}

} // verus!
