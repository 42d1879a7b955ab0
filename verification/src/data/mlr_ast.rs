//! The intermediate tree: the nodes of a program in one arena, each naming
//! its children by their identities.
use crate::collections::flat_tree::{FlatTree, Slot};
pub use crate::collections::flat_tree::{error_id, root_id, NodeId};
use crate::data::values::{decimal_text, number_text};
use vstd::prelude::*;
use vstd::string::*;

verus! {

/// The arena that holds the nodes of a program.
pub type Tree = FlatTree<Node>;

/// A function written in the language. Its name, its parameters and its
/// body are nodes of the same arena.
#[derive(Debug, Clone)]
pub struct GaleFunction {
    pub name: NodeId,
    pub parameters: Vec<NodeId>,
    pub implementation: NodeId,
}

/// The functions the host provides.
#[derive(Debug, Copy, Clone, PartialEq, Eq)]
pub enum NativeImplementation {
    Print,
    PrintLine,
    ReadFile,
    ToString,
}

/// A function of the host. It has no body in the arena, so it carries the
/// names of its parameters itself.
#[derive(Debug)]
pub struct NativeFunction {
    pub name: Name,
    pub parameters: Vec<Name>,
    pub implementation: NativeImplementation,
}

/// A function that can be called: one of the language or one of the host.
#[derive(Debug)]
pub enum Function {
    GaleFunction(GaleFunction),
    NativeFunction(NativeFunction),
}

/// The root of a program: the functions it defines.
#[derive(Debug)]
pub struct File {
    pub functions: Vec<NodeId>,
}

/// An identifier as a text.
#[derive(Debug, PartialEq, Eq, Hash, Clone)]
pub struct Name {
    pub text: String,
}

/// A name used as an expression.
#[derive(Debug)]
pub struct Identifier {
    pub name: Name,
}

/// A binding: the nodes of its name, its declared type and its initializer.
#[derive(Debug)]
pub struct Let {
    pub id: NodeId,
    pub exp_type: NodeId,
    pub exp: NodeId,
}

/// The statements of a block, in order.
#[derive(Debug)]
pub struct Sequence {
    pub elements: Vec<NodeId>,
}

/// A call: the nodes of the function's name and of the argument.
#[derive(Debug)]
pub struct Apply {
    pub fn_name: NodeId,
    pub param: NodeId,
}

/// An operator between the nodes of two expressions.
#[derive(Debug)]
pub struct BinOp {
    pub lhs: NodeId,
    pub rhs: NodeId,
    pub op_type: BinOpType,
}

/// The binary operators: product, sum and array index.
#[derive(Debug, Copy, Clone)]
pub enum BinOpType {
    Mult,
    Plus,
    ArrIndex,
}

/// An integer literal.
#[derive(Debug)]
pub struct Number {
    pub value: i64,
}

/// A truth value literal.
#[derive(Debug)]
pub struct Boolean {
    pub value: bool,
}

/// A quoted text.
#[derive(Debug)]
pub struct Text {
    pub text: String,
}

/// The nodes of the members of a tuple, in order.
#[derive(Debug)]
pub struct Tuple {
    pub elements: Vec<NodeId>,
}

/// The nodes of the elements of an array, in order.
#[derive(Debug)]
pub struct Array {
    pub elements: Vec<NodeId>,
}

/// The nodes of the options of a sum type.
#[derive(Debug)]
pub struct SumType {
    pub options: Vec<NodeId>,
}

/// The nodes of the members of a product type.
#[derive(Debug)]
pub struct ProductType {
    pub elements: Vec<NodeId>,
}

/// A name used as a type.
#[derive(Debug)]
pub struct IdentifierType {
    pub name: Name,
}

/// The nodes of the parameter type and of the return type.
#[derive(Debug)]
pub struct FunctionType {
    pub from: NodeId,
    pub to: NodeId,
}

/// The node of the element type, and the length.
#[derive(Debug)]
pub struct ArrayType {
    pub value_type: NodeId,
    pub length: usize,
}

/// What a slot of the arena holds.
#[derive(Debug)]
pub enum Node {
    File(File),
    Let(Let),
    Sequence(Sequence),
    Identifier(Identifier),
    BinOp(BinOp),
    Number(Number),
    Boolean(Boolean),
    Text(Text),
    Tuple(Tuple),
    Array(Array),
    Function(Function),
    Apply(Apply),
    SumType(SumType),
    ProductType(ProductType),
    IdentifierType(IdentifierType),
    FunctionType(FunctionType),
    ArrayType(ArrayType),
    UnitType,
}

/// A node as a mathematical value.
#[allow(inconsistent_fields)]
pub enum NodeView {
    File { functions: Seq<NodeId> },
    Let { id: NodeId, exp_type: NodeId, exp: NodeId },
    Sequence { elements: Seq<NodeId> },
    Identifier { name: Seq<char> },
    BinOp { lhs: NodeId, rhs: NodeId, op_type: BinOpType },
    Number { value: i64 },
    Boolean { value: bool },
    Text { text: Seq<char> },
    Tuple { elements: Seq<NodeId> },
    Array { elements: Seq<NodeId> },
    GaleFunction { name: NodeId, parameters: Seq<NodeId>, implementation: NodeId },
    NativeFunction { name: Seq<char>, parameters: Seq<Seq<char>>, implementation: NativeImplementation },
    Apply { fn_name: NodeId, param: NodeId },
    SumType { options: Seq<NodeId> },
    ProductType { elements: Seq<NodeId> },
    IdentifierType { name: Seq<char> },
    FunctionType { from: NodeId, to: NodeId },
    ArrayType { value_type: NodeId, length: usize },
    UnitType,
}

/// The texts of a list of names, in order.
pub open spec fn names_view(ns: Seq<Name>) -> Seq<Seq<char>> {
    ns.map_values(|n: Name| n.text@)
}

impl View for Function {
    type V = NodeView;

    open spec fn view(&self) -> NodeView {
        match *self {
            Function::GaleFunction(g) => NodeView::GaleFunction {
                name: g.name,
                parameters: g.parameters@,
                implementation: g.implementation,
            },
            Function::NativeFunction(f) => NodeView::NativeFunction {
                name: f.name.text@,
                parameters: names_view(f.parameters@),
                implementation: f.implementation,
            },
        }
    }
}

impl View for Node {
    type V = NodeView;

    open spec fn view(&self) -> NodeView {
        match *self {
            Node::File(n) => NodeView::File { functions: n.functions@ },
            Node::Let(n) => NodeView::Let { id: n.id, exp_type: n.exp_type, exp: n.exp },
            Node::Sequence(n) => NodeView::Sequence { elements: n.elements@ },
            Node::Identifier(n) => NodeView::Identifier { name: n.name.text@ },
            Node::BinOp(n) => NodeView::BinOp { lhs: n.lhs, rhs: n.rhs, op_type: n.op_type },
            Node::Number(n) => NodeView::Number { value: n.value },
            Node::Boolean(n) => NodeView::Boolean { value: n.value },
            Node::Text(n) => NodeView::Text { text: n.text@ },
            Node::Tuple(n) => NodeView::Tuple { elements: n.elements@ },
            Node::Array(n) => NodeView::Array { elements: n.elements@ },
            Node::Function(f) => f@,
            Node::Apply(n) => NodeView::Apply { fn_name: n.fn_name, param: n.param },
            Node::SumType(n) => NodeView::SumType { options: n.options@ },
            Node::ProductType(n) => NodeView::ProductType { elements: n.elements@ },
            Node::IdentifierType(n) => NodeView::IdentifierType { name: n.name.text@ },
            Node::FunctionType(n) => NodeView::FunctionType { from: n.from, to: n.to },
            Node::ArrayType(n) => NodeView::ArrayType { value_type: n.value_type, length: n.length },
            Node::UnitType => NodeView::UnitType,
        }
    }
}

/// One slot of the arena as a mathematical value.
pub struct SlotView {
    pub node: NodeView,
    pub live: bool,
    pub parent: NodeId,
}

/// The arena as a mathematical value: what each slot holds, in order.
pub open spec fn arena_view(s: Seq<Slot<Node>>) -> Seq<SlotView> {
    s.map_values(|x: Slot<Node>| SlotView { node: x.value@, live: x.live, parent: x.parent })
}

/// The node found when looking up the identity `id`: nothing for a
/// tombstone and for an identity that was never handed out.
pub open spec fn node_at(arena: Seq<SlotView>, id: NodeId) -> Option<NodeView> {
    if id < arena.len() && arena[id as int].live {
        Some(arena[id as int].node)
    } else {
        None
    }
}

/// The sign an operator is written with.
pub open spec fn operator_text(op: BinOpType) -> Seq<char> {
    match op {
        BinOpType::Plus => "+"@,
        BinOpType::Mult => "*"@,
        BinOpType::ArrIndex => "!!"@,
    }
}

/// The short text that stands for a node in a drawing of the tree.
pub open spec fn label_text(n: NodeView) -> Seq<char> {
    match n {
        NodeView::Let { .. } => "Let"@,
        NodeView::Sequence { .. } => "Seq"@,
        NodeView::Identifier { name } => "Id("@ + name + ")"@,
        NodeView::BinOp { op_type, .. } => operator_text(op_type),
        NodeView::Number { value } => decimal_text(value as int),
        NodeView::Boolean { value } => if value {
            "true"@
        } else {
            "false"@
        },
        NodeView::Text { text } => text,
        NodeView::Apply { .. } => "Call"@,
        NodeView::Tuple { .. } => "Tuple"@,
        NodeView::Array { .. } => "Array"@,
        NodeView::File { .. } => "File"@,
        NodeView::GaleFunction { .. } => "Fn"@,
        NodeView::NativeFunction { .. } => "Fn"@,
        NodeView::SumType { .. } => "SumType"@,
        NodeView::ProductType { .. } => "ProductType"@,
        NodeView::IdentifierType { name } => "TypeId("@ + name + ")"@,
        NodeView::FunctionType { .. } => "FnType"@,
        NodeView::ArrayType { .. } => "ArrayType"@,
        NodeView::UnitType => "UnitType"@,
    }
}

impl BinOpType {
    /// The sign the operator is written with.
    pub fn symbol(&self) -> (s: String)
        ensures
            s@ == operator_text(*self),
    {
        match self {
            BinOpType::Plus => String::from_str("+"),
            BinOpType::Mult => String::from_str("*"),
            BinOpType::ArrIndex => String::from_str("!!"),
        }
    }
}

impl Node {
    pub fn from_text(s: String) -> (n: Node)
        ensures
            n@ == (NodeView::Text { text: s@ }),
    {
        Node::Text(Text { text: s })
    }

    pub fn from_array(elems: Vec<NodeId>) -> (n: Node)
        ensures
            n@ == (NodeView::Array { elements: elems@ }),
    {
        Node::Array(Array { elements: elems })
    }

    pub fn from_tuple(elems: Vec<NodeId>) -> (n: Node)
        ensures
            n@ == (NodeView::Tuple { elements: elems@ }),
    {
        Node::Tuple(Tuple { elements: elems })
    }

    pub fn from_let(id: NodeId, exp_type: NodeId, exp: NodeId) -> (n: Node)
        ensures
            n@ == (NodeView::Let { id, exp_type, exp }),
    {
        Node::Let(Let { id: id, exp_type: exp_type, exp: exp })
    }

    pub fn from_gale_fn(n: NodeId, p: Vec<NodeId>, b: NodeId) -> (r: Node)
        ensures
            r@ == (NodeView::GaleFunction { name: n, parameters: p@, implementation: b }),
    {
        Node::Function(Function::new_gale(n, p, b))
    }

    pub fn from_native_fn(n: Name, p: Vec<Name>, b: NativeImplementation) -> (r: Node)
        ensures
            r@ == (NodeView::NativeFunction {
                name: n.text@,
                parameters: names_view(p@),
                implementation: b,
            }),
    {
        Node::Function(Function::new_native(n, p, b))
    }

    pub fn from_seq(ns: Vec<NodeId>) -> (n: Node)
        ensures
            n@ == (NodeView::Sequence { elements: ns@ }),
    {
        Node::Sequence(Sequence::new(ns))
    }

    pub fn from_id(n: Name) -> (r: Node)
        ensures
            r@ == (NodeView::Identifier { name: n.text@ }),
    {
        Node::Identifier(Identifier::from_name(n))
    }

    pub fn from_binop(l: NodeId, r: NodeId, op: BinOpType) -> (n: Node)
        ensures
            n@ == (NodeView::BinOp { lhs: l, rhs: r, op_type: op }),
    {
        Node::BinOp(BinOp::from(l, r, op))
    }

    pub fn from_apply(id: NodeId, params: NodeId) -> (n: Node)
        ensures
            n@ == (NodeView::Apply { fn_name: id, param: params }),
    {
        Node::Apply(Apply::new(id, params))
    }

    pub fn from_file(fns: Vec<NodeId>) -> (n: Node)
        ensures
            n@ == (NodeView::File { functions: fns@ }),
    {
        Node::File(File::from(fns))
    }

    pub fn from_num(n: i64) -> (r: Node)
        ensures
            r@ == (NodeView::Number { value: n }),
    {
        Node::Number(Number::from(n))
    }

    pub fn from_bool(b: bool) -> (r: Node)
        ensures
            r@ == (NodeView::Boolean { value: b }),
    {
        Node::Boolean(Boolean::from(b))
    }

    pub fn from_sum_type(elems: Vec<NodeId>) -> (n: Node)
        ensures
            n@ == (NodeView::SumType { options: elems@ }),
    {
        Node::SumType(SumType { options: elems })
    }

    pub fn from_product_type(elems: Vec<NodeId>) -> (n: Node)
        ensures
            n@ == (NodeView::ProductType { elements: elems@ }),
    {
        Node::ProductType(ProductType { elements: elems })
    }

    pub fn from_type_id(name: Name) -> (n: Node)
        ensures
            n@ == (NodeView::IdentifierType { name: name.text@ }),
    {
        Node::IdentifierType(IdentifierType { name: name })
    }

    pub fn from_function_type(from: NodeId, to: NodeId) -> (n: Node)
        ensures
            n@ == (NodeView::FunctionType { from, to }),
    {
        Node::FunctionType(FunctionType { from: from, to: to })
    }

    pub fn from_array_type(elem_type: NodeId, len: usize) -> (n: Node)
        ensures
            n@ == (NodeView::ArrayType { value_type: elem_type, length: len }),
    {
        Node::ArrayType(ArrayType { value_type: elem_type, length: len })
    }

    pub fn from_unit_type() -> (n: Node)
        ensures
            n@ == NodeView::UnitType,
    {
        Node::UnitType
    }

    /// The short text that stands for the node in a drawing of the tree.
    pub fn label(&self) -> (s: String)
        ensures
            s@ == label_text(self@),
    {
        match self {
            Node::Let(_) => String::from_str("Let"),
            Node::Sequence(_) => String::from_str("Seq"),
            Node::Identifier(n) => String::from_str("Id(").concat(n.name.text.as_str()).concat(")"),
            Node::BinOp(n) => n.op_type.symbol(),
            Node::Number(n) => number_text(n.value),
            Node::Boolean(n) => if n.value {
                String::from_str("true")
            } else {
                String::from_str("false")
            },
            Node::Text(n) => n.text.clone(),
            Node::Apply(_) => String::from_str("Call"),
            Node::Tuple(_) => String::from_str("Tuple"),
            Node::Array(_) => String::from_str("Array"),
            Node::File(_) => String::from_str("File"),
            Node::Function(_) => String::from_str("Fn"),
            Node::SumType(_) => String::from_str("SumType"),
            Node::ProductType(_) => String::from_str("ProductType"),
            Node::IdentifierType(n) => String::from_str("TypeId(").concat(n.name.text.as_str()).concat(
                ")",
            ),
            Node::FunctionType(_) => String::from_str("FnType"),
            Node::ArrayType(_) => String::from_str("ArrayType"),
            Node::UnitType => String::from_str("UnitType"),
        }
    }
}

impl Name {
    pub fn from_string(s: String) -> (n: Name)
        ensures
            n.text == s,
    {
        Name { text: s }
    }

    pub fn from_str(s: &str) -> (n: Name)
        ensures
            n.text@ == s@,
    {
        Name::from_string(String::from_str(s))
    }

    pub fn new() -> (n: Name)
        ensures
            n.text@ == Seq::<char>::empty(),
    {
        Name::from_string(String::new())
    }
}

impl Function {
    pub fn new_gale(n: NodeId, p: Vec<NodeId>, b: NodeId) -> (f: Function)
        ensures
            f@ == (NodeView::GaleFunction { name: n, parameters: p@, implementation: b }),
    {
        Function::GaleFunction(GaleFunction { name: n, parameters: p, implementation: b })
    }

    pub fn new_native(n: Name, p: Vec<Name>, b: NativeImplementation) -> (f: Function)
        ensures
            f@ == (NodeView::NativeFunction {
                name: n.text@,
                parameters: names_view(p@),
                implementation: b,
            }),
    {
        Function::NativeFunction(NativeFunction { name: n, parameters: p, implementation: b })
    }
}

impl GaleFunction {
    pub fn new(n: NodeId, p: Vec<NodeId>, b: NodeId) -> (g: GaleFunction)
        ensures
            g.name == n,
            g.parameters == p,
            g.implementation == b,
    {
        GaleFunction { name: n, parameters: p, implementation: b }
    }
}

impl NativeFunction {
    pub fn new(n: Name, p: Vec<Name>, b: NativeImplementation) -> (f: NativeFunction)
        ensures
            f.name == n,
            f.parameters == p,
            f.implementation == b,
    {
        NativeFunction { name: n, parameters: p, implementation: b }
    }
}

impl File {
    pub fn new() -> (f: File)
        ensures
            f.functions@ == Seq::<NodeId>::empty(),
    {
        File { functions: Vec::new() }
    }

    pub fn from(fns: Vec<NodeId>) -> (f: File)
        ensures
            f.functions == fns,
    {
        File { functions: fns }
    }
}

impl Identifier {
    pub fn from_name(n: Name) -> (i: Identifier)
        ensures
            i.name == n,
    {
        Identifier { name: n }
    }

    pub fn from_string(n: String) -> (i: Identifier)
        ensures
            i.name.text == n,
    {
        Identifier { name: Name { text: n } }
    }

    pub fn from_str(n: &str) -> (i: Identifier)
        ensures
            i.name.text@ == n@,
    {
        Identifier { name: Name { text: String::from_str(n) } }
    }
}

impl Let {
    pub fn new(id: NodeId, exp_type: NodeId, exp: NodeId) -> (l: Let)
        ensures
            l.id == id,
            l.exp_type == exp_type,
            l.exp == exp,
    {
        Let { id: id, exp_type: exp_type, exp: exp }
    }
}

impl Sequence {
    pub fn new(stmts: Vec<NodeId>) -> (s: Sequence)
        ensures
            s.elements == stmts,
    {
        Sequence { elements: stmts }
    }
}

impl Apply {
    pub fn new(id: NodeId, param: NodeId) -> (a: Apply)
        ensures
            a.fn_name == id,
            a.param == param,
    {
        Apply { fn_name: id, param: param }
    }
}

impl BinOp {
    pub fn from(lhs: NodeId, rhs: NodeId, op_type: BinOpType) -> (b: BinOp)
        ensures
            b.lhs == lhs,
            b.rhs == rhs,
            b.op_type == op_type,
    {
        BinOp { lhs: lhs, rhs: rhs, op_type: op_type }
    }
}

impl Number {
    pub fn from(v: i64) -> (n: Number)
        ensures
            n.value == v,
    {
        Number { value: v }
    }
}

impl Boolean {
    pub fn from(v: bool) -> (b: Boolean)
        ensures
            b.value == v,
    {
        Boolean { value: v }
    }
}

impl Tuple {
    pub fn from(elems: Vec<NodeId>) -> (t: Tuple)
        ensures
            t.elements == elems,
    {
        Tuple { elements: elems }
    }
}

} // verus!
