//! The type checker. It walks the surface tree in both directions: a node is
//! either handed a constraint that it has to meet, or it synthesizes its own
//! type. The first failure ends the check.
use crate::collections::name_map::NameMap;
use crate::data::hlr_ast::{
    identifiers_view, trees_view, App, Array, ArrayType, BinOp, BinOpType, Block, Boolean, File,
    FunctionType, Identifier, IdentifierType, Lambda, Let, Name, Number, ProductType, SumType, Text,
    Tree, TreeView, Tuple,
};
use crate::data::types::{types_view, AtomTypeKind, Type, TypeView};
use vstd::prelude::*;
use vstd::string::*;

verus! {

/// Why a check failed.
pub struct Failure {
    pub message: String,
}

impl Failure {
    pub fn new(m: &str) -> (f: Failure)
        ensures
            f.message@ == m@,
    {
        Failure { message: String::from_str(m) }
    }

    pub fn from(m: String) -> (f: Failure)
        ensures
            f.message == m,
    {
        Failure { message: m }
    }
}

/// What the checker knows while it walks: the type of every variable in
/// sight, and the type behind every type name.
pub struct Context {
    variables: NameMap<Type>,
    types: NameMap<Type>,
}

/// A context as a pair of mathematical tables.
pub struct ContextView {
    pub variables: Map<Seq<char>, TypeView>,
    pub types: Map<Seq<char>, TypeView>,
}

impl ContextView {
    /// The context with the variable `name` bound to `t`.
    pub open spec fn bind_variable(self, name: Seq<char>, t: TypeView) -> ContextView {
        ContextView { variables: self.variables.insert(name, t), types: self.types }
    }

    /// The context with the type name `name` bound to `t`.
    pub open spec fn bind_type(self, name: Seq<char>, t: TypeView) -> ContextView {
        ContextView { variables: self.variables, types: self.types.insert(name, t) }
    }
}

impl View for Context {
    type V = ContextView;

    closed spec fn view(&self) -> ContextView {
        ContextView {
            variables: self.variables@.map_values(|t: Type| t@),
            types: self.types@.map_values(|t: Type| t@),
        }
    }
}

impl Context {
    /// A context that knows no name.
    pub fn new() -> (ctx: Context)
        ensures
            ctx@ == (ContextView { variables: Map::empty(), types: Map::empty() }),
    {
        let ctx = Context { variables: NameMap::new(), types: NameMap::new() };
        assert(ctx@.variables =~= Map::empty());
        assert(ctx@.types =~= Map::empty());
        ctx
    }

    /// Binds the variable `name` to `type_`, in place of what it was bound to.
    pub fn add_variable(&mut self, name: Name, type_: Type)
        ensures
            final(self)@ == old(self)@.bind_variable(name.text@, type_@),
    {
        self.variables.insert(name.text, type_);
        assert(self@.variables =~= old(self)@.variables.insert(name.text@, type_@));
    }

    /// The type of the variable `name`, if it is bound.
    pub fn get_variable(&self, name: &Name) -> (r: Option<Type>)
        ensures
            match r {
                Some(t) => self@.variables.contains_key(name.text@) && self@.variables[name.text@] == t@,
                None => !self@.variables.contains_key(name.text@),
            },
    {
        match self.variables.get(&name.text) {
            None => None,
            Some(t) => Some(t.clone()),
        }
    }

    /// Binds the type name `name` to `type_`, in place of what it was bound to.
    pub fn add_type(&mut self, name: Name, type_: Type)
        ensures
            final(self)@ == old(self)@.bind_type(name.text@, type_@),
    {
        self.types.insert(name.text, type_);
        assert(self@.types =~= old(self)@.types.insert(name.text@, type_@));
    }

    /// The type behind the type name `name`, if it is bound.
    pub fn get_type(&self, name: &Name) -> (r: Option<Type>)
        ensures
            match r {
                Some(t) => self@.types.contains_key(name.text@) && self@.types[name.text@] == t@,
                None => !self@.types.contains_key(name.text@),
            },
    {
        match self.types.get(&name.text) {
            None => None,
            Some(t) => Some(t.clone()),
        }
    }
}

/// What a node is asked to be. `must_be` names the type it has to resolve
/// to; without it the constraint is a placeholder that asks for nothing.
#[derive(Debug)]
pub struct Constraints {
    pub must_be: Option<Type>,
}

impl Constraints {
    /// A placeholder: a constraint that asks for nothing.
    pub fn new() -> (c: Constraints)
        ensures
            c.must_be.is_none(),
    {
        Constraints { must_be: None }
    }

    /// The constraint to resolve to exactly `t`.
    pub fn must_be(t: Type) -> (c: Constraints)
        ensures
            c.must_be == Some(t),
    {
        Constraints { must_be: Some(t) }
    }
}

impl Clone for Constraints {
    fn clone(&self) -> (c: Constraints)
        ensures
            constraint_view(Some(c)) == constraint_view(Some(*self)),
    {
        match &self.must_be {
            None => Constraints { must_be: None },
            Some(t) => Constraints { must_be: Some(t.clone()) },
        }
    }
}

/// A constraint as a mathematical value: absent, a placeholder, or the type
/// asked for.
pub type ConstraintView = Option<Option<TypeView>>;

/// The mathematical value of a constraint.
pub open spec fn constraint_view(c: Option<Constraints>) -> ConstraintView {
    match c {
        None => None,
        Some(c) => match c.must_be {
            None => Some(None),
            Some(t) => Some(Some(t@)),
        },
    }
}

/// How checking a node ends: with the node's type, if it has one, or with
/// the message of the failure; and with the context it leaves behind.
pub struct Checked {
    pub result: Result<Option<TypeView>, Seq<char>>,
    pub ctx: ContextView,
}

/// The check fails with `message`.
pub open spec fn failed(message: Seq<char>, ctx: ContextView) -> Checked {
    Checked { result: Err(message), ctx }
}

/// The node has the type `t`.
pub open spec fn typed(t: TypeView, ctx: ContextView) -> Checked {
    Checked { result: Ok(Some(t)), ctx }
}

/// The node is well formed and has no type.
pub open spec fn untyped(ctx: ContextView) -> Checked {
    Checked { result: Ok(None), ctx }
}

/// The type without parts of the kind `kind`.
pub open spec fn atom(kind: AtomTypeKind) -> TypeView {
    TypeView::Atom { kind }
}

/// The type of the functions from `from` to `to`.
pub open spec fn function(from: TypeView, to: TypeView) -> TypeView {
    TypeView::Function { from: Box::new(from), to: Box::new(to) }
}

/// The text that the derived `Debug` of `Type` writes for a type.
pub uninterp spec fn type_debug_text(t: TypeView) -> Seq<char>;

/// What is said where an initializer has not the declared type.
pub open spec fn let_mismatch_text(expected: TypeView, actual: TypeView) -> Seq<char> {
    "Let type "@ + type_debug_text(expected) + " does not match expression type "@ + type_debug_text(
        actual,
    )
}

/// What is said where an argument has not the parameter type.
pub open spec fn param_mismatch_text(param: TypeView, argument: TypeView) -> Seq<char> {
    "Param type "@ + type_debug_text(param) + " does not match argument type "@ + type_debug_text(
        argument,
    )
}

/// The names and types every program starts with.
pub open spec fn prelude() -> ContextView {
    ContextView {
        variables: Map::<Seq<char>, TypeView>::empty().insert(
            "std.print"@,
            function(atom(AtomTypeKind::Text), TypeView::Unit),
        ).insert("std.println"@, function(atom(AtomTypeKind::Text), TypeView::Unit)).insert(
            "std.read"@,
            function(atom(AtomTypeKind::Text), atom(AtomTypeKind::Text)),
        ).insert("std.to_string"@, function(atom(AtomTypeKind::UI8), atom(AtomTypeKind::Text))),
        types: Map::<Seq<char>, TypeView>::empty().insert("ui8"@, atom(AtomTypeKind::UI8)).insert(
            "string"@,
            atom(AtomTypeKind::Text),
        ),
    }
}

/// The kinds a number can have.
pub open spec fn is_integer_kind(kind: AtomTypeKind) -> bool {
    kind == AtomTypeKind::I64 || kind == AtomTypeKind::I8 || kind == AtomTypeKind::UI64 || kind
        == AtomTypeKind::UI8
}

/// The type of a node, checked in `ctx` under the constraint `ctr`.
///
/// A file checks its statements for effect.
///
/// A binding checks its declared type first. The name is in sight while the
/// initializer is checked, and the initializer has to have the declared type.
///
/// The last statement of a block gives the block its type and takes the
/// block's constraint. The statements before it are checked for effect.
///
/// An identifier has the type it was bound to.
///
/// Arithmetic hands its constraint to both sides, which have to agree. An
/// index takes an array on the left, whose element type it has, and asks the
/// right for an unsigned 64-bit number.
///
/// A lambda needs to be told the function type it has. The parameter type
/// decides how its parameters are bound: a product gives each parameter its
/// element, the unit type binds none, any other type goes to the single
/// parameter. The body is checked under the return type.
///
/// An application synthesizes a function type on the left and an argument
/// type on the right, which has to be the function's parameter type.
///
/// A number takes the integer kind it is asked for, and is a signed 64-bit
/// number when nothing is asked. A truth value and a text have their own
/// types whatever is asked.
///
/// The members of a tuple are typed on their own, each under a placeholder.
///
/// An empty array has the type it is asked to have. Any other array hands
/// the element type of the array type asked for to its items; the first item
/// decides the element type and the others have to agree.
///
/// A type name stands for the type it was bound to; function, array and
/// product types are put together from their parts; a sum type is accepted
/// and has no type.
pub open spec fn check_tree(t: TreeView, ctx: ContextView, ctr: ConstraintView) -> Checked
    decreases t, 0nat,
{
    match t {
        TreeView::File { statements } => check_file(statements, 0, ctx),
        TreeView::Let { id, exp_type, exp } => {
            let declared = check_tree(*exp_type, ctx, None);
            match declared.result {
                Err(_) => declared,
                Ok(None) => failed("Expected let rhs to return a type"@, declared.ctx),
                Ok(Some(expected)) => {
                    let bound = declared.ctx.bind_variable(id, expected);
                    let initializer = check_tree(*exp, bound, Some(Some(expected)));
                    match initializer.result {
                        Err(_) => initializer,
                        Ok(None) => failed(
                            "Expected let expression to yield type"@,
                            initializer.ctx,
                        ),
                        Ok(Some(actual)) => if expected == actual {
                            untyped(initializer.ctx)
                        } else {
                            failed(let_mismatch_text(expected, actual), initializer.ctx)
                        },
                    }
                },
            }
        },
        TreeView::Block { statements } => check_block(statements, 0, ctx, ctr),
        TreeView::Identifier { name } => if ctx.variables.contains_key(name) {
            typed(ctx.variables[name], ctx)
        } else {
            failed("Unknown variable "@ + name, ctx)
        },
        TreeView::BinOp { lhs, rhs, op_type } => match op_type {
            BinOpType::ArrIndex => {
                let array = check_tree(*lhs, ctx, None);
                match array.result {
                    Err(_) => array,
                    Ok(Some(TypeView::Array { element, length })) => {
                        let index = check_tree(
                            *rhs,
                            array.ctx,
                            Some(Some(atom(AtomTypeKind::UI64))),
                        );
                        if index.result is Err {
                            index
                        } else {
                            typed(*element, index.ctx)
                        }
                    },
                    Ok(_) => failed(
                        "Lhs of array index operation must have array type"@,
                        array.ctx,
                    ),
                }
            },
            _ => {
                let left = check_tree(*lhs, ctx, ctr);
                match left.result {
                    Err(_) => left,
                    Ok(None) => failed(
                        "Internal invariant violated: lhs of operation yields no type"@,
                        left.ctx,
                    ),
                    Ok(Some(lhs_type)) => {
                        let right = check_tree(*rhs, left.ctx, ctr);
                        match right.result {
                            Err(_) => right,
                            Ok(None) => failed(
                                "Internal invariant violated: rhs of operation yields no type"@,
                                right.ctx,
                            ),
                            Ok(Some(rhs_type)) => if lhs_type == rhs_type {
                                typed(lhs_type, right.ctx)
                            } else {
                                failed("BinOp Types must be equal"@, right.ctx)
                            },
                        }
                    },
                }
            },
        },
        TreeView::Lambda { parameters, body } => match ctr {
            None => failed("Expected constraints"@, ctx),
            Some(None) => failed("Expected equality constraints"@, ctx),
            Some(Some(TypeView::Function { from, to })) => match bind_lambda(parameters, *from, ctx) {
                Err(message) => failed(message, ctx),
                Ok(inner) => {
                    let checked_body = check_tree(*body, inner, Some(Some(*to)));
                    if checked_body.result is Err {
                        checked_body
                    } else {
                        typed(function(*from, *to), checked_body.ctx)
                    }
                },
            },
            Some(Some(_)) => failed("Expected function constraint"@, ctx),
        },
        TreeView::App { fn_exp, param_exp } => {
            let callee = check_tree(*fn_exp, ctx, None);
            match callee.result {
                Err(_) => callee,
                Ok(Some(TypeView::Function { from, to })) => {
                    let argument = check_tree(*param_exp, callee.ctx, None);
                    match argument.result {
                        Err(_) => argument,
                        Ok(None) => failed(
                            "Expected parameters to evaluate to type"@,
                            argument.ctx,
                        ),
                        Ok(Some(given)) => if *from == given {
                            typed(*to, argument.ctx)
                        } else {
                            failed(param_mismatch_text(given, *from), argument.ctx)
                        },
                    }
                },
                Ok(_) => failed("Expected function type result"@, callee.ctx),
            }
        },
        TreeView::Number { .. } => match ctr {
            Some(Some(TypeView::Atom { kind })) => if is_integer_kind(kind) {
                typed(atom(kind), ctx)
            } else {
                failed("Expected integer constraint"@, ctx)
            },
            Some(Some(_)) => failed("Expected integer constraint"@, ctx),
            _ => typed(atom(AtomTypeKind::I64), ctx),
        },
        TreeView::Boolean { .. } => typed(atom(AtomTypeKind::Boolean), ctx),
        TreeView::Text { .. } => typed(atom(AtomTypeKind::Text), ctx),
        TreeView::Tuple { elements } => check_elements(elements, 0, ctx, Some(None), Seq::empty()),
        TreeView::Array { elements } => if elements.len() == 0 {
            match ctr {
                Some(Some(asked)) => typed(asked, ctx),
                _ => failed("Empty array requires type constraint to determine array type"@, ctx),
            }
        } else {
            match ctr {
                Some(Some(TypeView::Array { element, length })) => check_array_items(
                    elements,
                    ctx,
                    Some(Some(*element)),
                ),
                Some(Some(_)) => failed(
                    "Cannot satisfy non-array type constraint when checking array"@,
                    ctx,
                ),
                _ => check_array_items(elements, ctx, None),
            }
        },
        TreeView::SumType { .. } => untyped(ctx),
        TreeView::ProductType { elements } => check_elements(elements, 0, ctx, None, Seq::empty()),
        TreeView::IdentifierType { name } => if ctx.types.contains_key(name) {
            typed(ctx.types[name], ctx)
        } else {
            failed("Unknown type identifier: "@ + name, ctx)
        },
        TreeView::FunctionType { from, to } => {
            let lhs = check_tree(*from, ctx, None);
            match lhs.result {
                Err(_) => lhs,
                Ok(None) => failed("Expected lhs to return type"@, lhs.ctx),
                Ok(Some(t1)) => {
                    let rhs = check_tree(*to, lhs.ctx, None);
                    match rhs.result {
                        Err(_) => rhs,
                        Ok(None) => failed("Expected rhs to return type"@, rhs.ctx),
                        Ok(Some(t2)) => typed(function(t1, t2), rhs.ctx),
                    }
                },
            }
        },
        TreeView::ArrayType { value_type, length } => {
            let value = check_tree(*value_type, ctx, None);
            match value.result {
                Err(_) => value,
                Ok(None) => failed("Expected array value type to return type"@, value.ctx),
                Ok(Some(element)) => typed(
                    TypeView::Array { element: Box::new(element), length },
                    value.ctx,
                ),
            }
        },
        TreeView::UnitType => typed(TypeView::Unit, ctx),
    }
}

/// The statements of a file from the `i`-th on: each is checked for effect.
pub open spec fn check_file(v: Seq<TreeView>, i: int, ctx: ContextView) -> Checked
    decreases v, v.len() - i,
{
    if i < 0 || i >= v.len() {
        untyped(ctx)
    } else {
        let c = check_tree(v[i], ctx, None);
        if c.result is Err {
            c
        } else {
            check_file(v, i + 1, c.ctx)
        }
    }
}

/// The statements of a block from the `i`-th on: the last one gives the
/// block its type and takes the block's constraint.
pub open spec fn check_block(v: Seq<TreeView>, i: int, ctx: ContextView, ctr: ConstraintView) -> Checked
    decreases v, v.len() - i,
{
    if i < 0 || i >= v.len() {
        failed("Expected block.check to return type"@, ctx)
    } else if i == v.len() - 1 {
        check_tree(v[i], ctx, ctr)
    } else {
        let c = check_tree(v[i], ctx, None);
        if c.result is Err {
            c
        } else {
            check_block(v, i + 1, c.ctx, ctr)
        }
    }
}

/// The context after giving the parameters from the `i`-th on the types at
/// their positions.
pub open spec fn bind_parameters(
    params: Seq<Seq<char>>,
    types: Seq<TypeView>,
    i: int,
    ctx: ContextView,
) -> ContextView
    decreases params.len() - i,
{
    if i < 0 || i >= params.len() || i >= types.len() {
        ctx
    } else {
        bind_parameters(params, types, i + 1, ctx.bind_variable(params[i], types[i]))
    }
}

/// The context in which the body of a lambda is checked, where the lambda
/// takes arguments of the type `from`.
pub open spec fn bind_lambda(params: Seq<Seq<char>>, from: TypeView, ctx: ContextView) -> Result<
    ContextView,
    Seq<char>,
> {
    match from {
        TypeView::Product { elements } => if elements.len() != params.len() {
            Err("Product type constraint not the same length as function parameter list"@)
        } else {
            Ok(bind_parameters(params, elements, 0, ctx))
        },
        TypeView::Unit => Ok(ctx),
        single => if params.len() != 1 {
            Err("Lambda has multiple parameters but single type was given"@)
        } else {
            Ok(ctx.bind_variable(params[0], single))
        },
    }
}

/// The members of a tuple or of a product type from the `i`-th on, each
/// checked under `ctr`; `found` holds the types of the members before.
pub open spec fn check_elements(
    v: Seq<TreeView>,
    i: int,
    ctx: ContextView,
    ctr: ConstraintView,
    found: Seq<TypeView>,
) -> Checked
    decreases v, v.len() - i,
{
    if i < 0 || i >= v.len() {
        typed(TypeView::Product { elements: found }, ctx)
    } else {
        let c = check_tree(v[i], ctx, ctr);
        match c.result {
            Err(_) => c,
            Ok(None) => failed("Expected type result"@, c.ctx),
            Ok(Some(t)) => check_elements(v, i + 1, c.ctx, ctr, found.push(t)),
        }
    }
}

/// The items of an array that has any: the first decides the element type.
pub open spec fn check_array_items(v: Seq<TreeView>, ctx: ContextView, ctr: ConstraintView) -> Checked
    decreases v, v.len() + 1,
{
    if v.len() == 0 {
        untyped(ctx)
    } else {
        let first = check_tree(v[0], ctx, ctr);
        match first.result {
            Err(_) => first,
            Ok(None) => failed("Expected type results"@, first.ctx),
            Ok(Some(t)) => check_array_rest(v, 1, first.ctx, ctr, t),
        }
    }
}

/// The items of an array from the `i`-th on: each has to have the type
/// `first` of the first item.
pub open spec fn check_array_rest(
    v: Seq<TreeView>,
    i: int,
    ctx: ContextView,
    ctr: ConstraintView,
    first: TypeView,
) -> Checked
    decreases v, v.len() - i,
{
    if i < 0 || i >= v.len() {
        typed(TypeView::Array { element: Box::new(first), length: v.len() as usize }, ctx)
    } else {
        let c = check_tree(v[i], ctx, ctr);
        match c.result {
            Err(_) => c,
            Ok(None) => failed("Expected type result"@, c.ctx),
            Ok(Some(t)) => if t != first {
                failed("Array values must be of equal type"@, c.ctx)
            } else {
                check_array_rest(v, i + 1, c.ctx, ctr, first)
            },
        }
    }
}

/// What an outcome of the checker and the context it left stand for.
pub open spec fn checked(r: Result<Option<Type>, Failure>, ctx: Context) -> Checked {
    Checked {
        result: match r {
            Ok(Some(t)) => Ok(Some(t@)),
            Ok(None) => Ok(None),
            Err(f) => Err(f.message@),
        },
        ctx: ctx@,
    }
}

/// Renders a type the way its derived `Debug` does, by `format!("{:?}", t)`.
/// Two types of the same shape are written alike, so the text is a function
/// of the type's mathematical value.
#[verifier::external_body]
fn type_debug_string(t: &Type) -> (s: String)
    ensures
        s@ == type_debug_text(t@),
{
    format!("{:?}", t)
}

fn clone_constraint(c: &Option<Constraints>) -> (r: Option<Constraints>)
    ensures
        constraint_view(r) == constraint_view(*c),
{
    match c {
        None => None,
        Some(c) => Some(c.clone()),
    }
}

fn mismatch(prefix: &str, first: &Type, infix: &str, second: &Type) -> (f: Failure)
    ensures
        f.message@ == prefix@ + type_debug_text(first@) + infix@ + type_debug_text(second@),
{
    let mut m = String::from_str(prefix);
    m.append(type_debug_string(first).as_str());
    m.append(infix);
    m.append(type_debug_string(second).as_str());
    Failure::from(m)
}

impl File {
    /// Checks the statements of the file.
    pub fn check(&self, ctx: &mut Context, ctr: Option<Constraints>) -> (r: Result<
        Option<Type>,
        Failure,
    >)
        ensures
            checked(r, *final(ctx)) == check_tree(
                Tree::File(*self)@,
                old(ctx)@,
                constraint_view(ctr),
            ),
        decreases self,
    {
        let mut i: usize = 0;
        while i < self.statements.len()
            invariant
                i <= self.statements.len(),
                check_file(trees_view(self.statements), i as int, ctx@) == check_file(
                    trees_view(self.statements),
                    0,
                    old(ctx)@,
                ),
            decreases self.statements.len() - i,
        {
            match self.statements[i].check(ctx, None) {
                Err(f) => {
                    return Err(f);
                },
                Ok(_) => {},
            }
            i += 1;
        }
        Ok(None)
    }
}

impl Let {
    /// Checks the binding and brings its name in sight.
    pub fn check(&self, ctx: &mut Context, ctr: Option<Constraints>) -> (r: Result<
        Option<Type>,
        Failure,
    >)
        ensures
            checked(r, *final(ctx)) == check_tree(
                Tree::Let(*self)@,
                old(ctx)@,
                constraint_view(ctr),
            ),
        decreases self,
    {
        match (*self.exp_type).check(ctx, None) {
            Err(f) => Err(f),
            Ok(None) => Err(Failure::new("Expected let rhs to return a type")),
            Ok(Some(expected_type)) => {
                ctx.add_variable(Name { text: self.id.name.text.clone() }, expected_type.clone());
                match (*self.exp).check(ctx, Some(Constraints::must_be(expected_type.clone()))) {
                    Err(f) => Err(f),
                    Ok(None) => Err(Failure::new("Expected let expression to yield type")),
                    Ok(Some(actual_type)) => {
                        if expected_type.equals(&actual_type) {
                            Ok(None)
                        } else {
                            Err(
                                mismatch(
                                    "Let type ",
                                    &expected_type,
                                    " does not match expression type ",
                                    &actual_type,
                                ),
                            )
                        }
                    },
                }
            },
        }
    }
}

impl Block {
    /// Checks the statements of the block.
    pub fn check(&self, ctx: &mut Context, ctr: Option<Constraints>) -> (r: Result<
        Option<Type>,
        Failure,
    >)
        ensures
            checked(r, *final(ctx)) == check_tree(
                Tree::Block(*self)@,
                old(ctx)@,
                constraint_view(ctr),
            ),
        decreases self,
    {
        let n = self.statements.len();
        if n == 0 {
            return Err(Failure::new("Expected block.check to return type"));
        }
        let mut i: usize = 0;
        while i < n - 1
            invariant
                n == self.statements.len(),
                i <= n - 1,
                check_block(trees_view(self.statements), i as int, ctx@, constraint_view(ctr))
                    == check_block(
                    trees_view(self.statements),
                    0,
                    old(ctx)@,
                    constraint_view(ctr),
                ),
            decreases n - i,
        {
            match self.statements[i].check(ctx, None) {
                Err(f) => {
                    return Err(f);
                },
                Ok(_) => {},
            }
            i += 1;
        }
        self.statements[i].check(ctx, ctr)
    }
}

impl Identifier {
    /// Looks the identifier up.
    pub fn check(&self, ctx: &mut Context, ctr: Option<Constraints>) -> (r: Result<
        Option<Type>,
        Failure,
    >)
        ensures
            checked(r, *final(ctx)) == check_tree(
                Tree::Identifier(*self)@,
                old(ctx)@,
                constraint_view(ctr),
            ),
    {
        match ctx.get_variable(&self.name) {
            None => Err(
                Failure::from(String::from_str("Unknown variable ").concat(self.name.text.as_str())),
            ),
            Some(t) => Ok(Some(t)),
        }
    }
}

impl BinOp {
    /// Checks the two sides of the operation.
    pub fn check(&self, ctx: &mut Context, ctr: Option<Constraints>) -> (r: Result<
        Option<Type>,
        Failure,
    >)
        ensures
            checked(r, *final(ctx)) == check_tree(
                Tree::BinOp(*self)@,
                old(ctx)@,
                constraint_view(ctr),
            ),
        decreases self,
    {
        match self.op_type {
            BinOpType::ArrIndex => {
                match (*self.lhs).check(ctx, None) {
                    Err(f) => Err(f),
                    Ok(Some(Type::ArrayType(a))) => {
                        let rhs_should_be = Type::from_atom(AtomTypeKind::UI64);
                        match (*self.rhs).check(ctx, Some(Constraints::must_be(rhs_should_be))) {
                            Err(f) => Err(f),
                            Ok(_) => Ok(Some(*a.value_type)),
                        }
                    },
                    Ok(_) => Err(Failure::new("Lhs of array index operation must have array type")),
                }
            },
            _ => {
                match (*self.lhs).check(ctx, clone_constraint(&ctr)) {
                    Err(f) => Err(f),
                    Ok(None) => Err(Failure::new(
                        "Internal invariant violated: lhs of operation yields no type",
                    )),
                    Ok(Some(lhs_type)) => {
                        match (*self.rhs).check(ctx, ctr) {
                            Err(f) => Err(f),
                            Ok(None) => Err(Failure::new(
                                "Internal invariant violated: rhs of operation yields no type",
                            )),
                            Ok(Some(rhs_type)) => {
                                if lhs_type.equals(&rhs_type) {
                                    Ok(Some(lhs_type))
                                } else {
                                    Err(Failure::new("BinOp Types must be equal"))
                                }
                            },
                        }
                    },
                }
            },
        }
    }
}

impl Lambda {
    /// Checks the lambda against the function type asked for.
    pub fn check(&self, ctx: &mut Context, constraints: Option<Constraints>) -> (r: Result<
        Option<Type>,
        Failure,
    >)
        ensures
            checked(r, *final(ctx)) == check_tree(
                Tree::Lambda(*self)@,
                old(ctx)@,
                constraint_view(constraints),
            ),
        decreases self,
    {
        let type_to_be = match constraints {
            None => {
                return Err(Failure::new("Expected constraints"));
            },
            Some(c) => match c.must_be {
                None => {
                    return Err(Failure::new("Expected equality constraints"));
                },
                Some(t) => t,
            },
        };
        proof {
            reveal_with_fuel(crate::data::types::type_view, 2);
        }
        match type_to_be {
            Type::FunctionType(ft) => {
                match &*ft.from {
                    Type::ProductType(p) => {
                        assert(types_view(p.elements).len() == p.elements.len());
                        if p.elements.len() != self.parameters.len() {
                            return Err(
                                Failure::new(
                                    "Product type constraint not the same length as function parameter list",
                                ),
                            );
                        }
                        let mut i: usize = 0;
                        while i < self.parameters.len()
                            invariant
                                i <= self.parameters.len(),
                                p.elements.len() == self.parameters.len(),
                                bind_parameters(
                                    identifiers_view(self.parameters@),
                                    types_view(p.elements),
                                    i as int,
                                    ctx@,
                                ) == bind_parameters(
                                    identifiers_view(self.parameters@),
                                    types_view(p.elements),
                                    0,
                                    old(ctx)@,
                                ),
                            decreases self.parameters.len() - i,
                        {
                            ctx.add_variable(
                                Name { text: self.parameters[i].name.text.clone() },
                                p.elements[i].clone(),
                            );
                            i += 1;
                        }
                    },
                    Type::UnitType => {},
                    t => {
                        if self.parameters.len() != 1 {
                            return Err(
                                Failure::new("Lambda has multiple parameters but single type was given"),
                            );
                        }
                        ctx.add_variable(Name { text: self.parameters[0].name.text.clone() }, t.clone());
                    },
                }
                match (*self.body).check(ctx, Some(Constraints::must_be((*ft.to).clone()))) {
                    Err(f) => Err(f),
                    Ok(_) => Ok(Some(Type::FunctionType(ft))),
                }
            },
            _ => Err(Failure::new("Expected function constraint")),
        }
    }
}

impl App {
    /// Checks the function and its argument.
    pub fn check(&self, ctx: &mut Context, constraints: Option<Constraints>) -> (r: Result<
        Option<Type>,
        Failure,
    >)
        ensures
            checked(r, *final(ctx)) == check_tree(
                Tree::App(*self)@,
                old(ctx)@,
                constraint_view(constraints),
            ),
        decreases self,
    {
        match (*self.fn_exp).check(ctx, None) {
            Err(f) => Err(f),
            Ok(Some(Type::FunctionType(ft))) => {
                match (*self.param_exp).check(ctx, None) {
                    Err(f) => Err(f),
                    Ok(None) => Err(Failure::new("Expected parameters to evaluate to type")),
                    Ok(Some(pt)) => {
                        if (*ft.from).equals(&pt) {
                            Ok(Some(*ft.to))
                        } else {
                            Err(
                                mismatch(
                                    "Param type ",
                                    &pt,
                                    " does not match argument type ",
                                    &*ft.from,
                                ),
                            )
                        }
                    },
                }
            },
            Ok(_) => Err(Failure::new("Expected function type result")),
        }
    }
}

impl Number {
    /// Gives the number the integer kind asked for.
    pub fn check(&self, ctx: &mut Context, constraints: Option<Constraints>) -> (r: Result<
        Option<Type>,
        Failure,
    >)
        ensures
            checked(r, *final(ctx)) == check_tree(
                Tree::Number(*self)@,
                old(ctx)@,
                constraint_view(constraints),
            ),
    {
        match constraints {
            Some(Constraints { must_be: Some(Type::AtomType(a)) }) => {
                match a.kind {
                    AtomTypeKind::I64 | AtomTypeKind::I8 | AtomTypeKind::UI64 | AtomTypeKind::UI8 => Ok(
                        Some(Type::AtomType(a)),
                    ),
                    _ => Err(Failure::new("Expected integer constraint")),
                }
            },
            Some(Constraints { must_be: Some(_) }) => Err(Failure::new("Expected integer constraint")),
            _ => Ok(Some(Type::from_atom(AtomTypeKind::I64))),
        }
    }
}

impl Boolean {
    /// A truth value is a truth value.
    pub fn check(&self, ctx: &mut Context, constraints: Option<Constraints>) -> (r: Result<
        Option<Type>,
        Failure,
    >)
        ensures
            checked(r, *final(ctx)) == check_tree(
                Tree::Boolean(*self)@,
                old(ctx)@,
                constraint_view(constraints),
            ),
    {
        Ok(Some(Type::from_atom(AtomTypeKind::Boolean)))
    }
}

impl Text {
    /// A text is a text.
    pub fn check(&self, ctx: &mut Context, constraints: Option<Constraints>) -> (r: Result<
        Option<Type>,
        Failure,
    >)
        ensures
            checked(r, *final(ctx)) == check_tree(
                Tree::Text(*self)@,
                old(ctx)@,
                constraint_view(constraints),
            ),
    {
        Ok(Some(Type::from_atom(AtomTypeKind::Text)))
    }
}

/// Checks the members of a tuple or of a product type, each under its own
/// copy of `ctr`, and collects their types into a product.
fn check_members(v: &Vec<Tree>, ctx: &mut Context, ctr: Option<Constraints>) -> (r: Result<
    Option<Type>,
    Failure,
>)
    ensures
        checked(r, *final(ctx)) == check_elements(
            trees_view(*v),
            0,
            old(ctx)@,
            constraint_view(ctr),
            Seq::empty(),
        ),
    decreases v,
{
    let mut elems: Vec<Type> = Vec::new();
    let mut i: usize = 0;
    assert(types_view(elems) =~= Seq::<TypeView>::empty());
    while i < v.len()
        invariant
            i <= v.len(),
            check_elements(trees_view(*v), i as int, ctx@, constraint_view(ctr), types_view(elems))
                == check_elements(trees_view(*v), 0, old(ctx)@, constraint_view(ctr), Seq::empty()),
        decreases v.len() - i,
    {
        let ghost before = types_view(elems);
        match v[i].check(ctx, clone_constraint(&ctr)) {
            Err(f) => {
                return Err(f);
            },
            Ok(None) => {
                return Err(Failure::new("Expected type result"));
            },
            Ok(Some(t)) => {
                elems.push(t);
                assert(types_view(elems) =~= before.push(t@));
            },
        }
        i += 1;
    }
    Ok(Some(Type::from_product(elems)))
}

impl Tuple {
    /// Checks the members of the tuple.
    pub fn check(&self, ctx: &mut Context, constraints: Option<Constraints>) -> (r: Result<
        Option<Type>,
        Failure,
    >)
        ensures
            checked(r, *final(ctx)) == check_tree(
                Tree::Tuple(*self)@,
                old(ctx)@,
                constraint_view(constraints),
            ),
        decreases self,
    {
        check_members(&self.elements, ctx, Some(Constraints::new()))
    }
}

impl Array {
    /// Checks the items of the array.
    pub fn check(&self, ctx: &mut Context, constraints: Option<Constraints>) -> (r: Result<
        Option<Type>,
        Failure,
    >)
        ensures
            checked(r, *final(ctx)) == check_tree(
                Tree::Array(*self)@,
                old(ctx)@,
                constraint_view(constraints),
            ),
        decreases self,
    {
        let l = self.elements.len();
        if l == 0 {
            return match constraints {
                Some(Constraints { must_be: Some(t) }) => Ok(Some(t)),
                _ => Err(
                    Failure::new("Empty array requires type constraint to determine array type"),
                ),
            };
        }
        let elem_constraints = match constraints {
            Some(Constraints { must_be: Some(Type::ArrayType(a)) }) => Some(
                Constraints::must_be(*a.value_type),
            ),
            Some(Constraints { must_be: Some(_) }) => {
                return Err(
                    Failure::new("Cannot satisfy non-array type constraint when checking array"),
                );
            },
            _ => None,
        };
        assert(check_tree(Tree::Array(*self)@, old(ctx)@, constraint_view(constraints))
            == check_array_items(
            trees_view(self.elements),
            old(ctx)@,
            constraint_view(elem_constraints),
        ));
        let first = match self.elements[0].check(ctx, clone_constraint(&elem_constraints)) {
            Err(f) => {
                return Err(f);
            },
            Ok(None) => {
                return Err(Failure::new("Expected type results"));
            },
            Ok(Some(t)) => t,
        };
        let mut i: usize = 1;
        while i < l
            invariant
                l == self.elements.len(),
                1 <= i <= l,
                check_array_rest(
                    trees_view(self.elements),
                    i as int,
                    ctx@,
                    constraint_view(elem_constraints),
                    first@,
                ) == check_tree(Tree::Array(*self)@, old(ctx)@, constraint_view(constraints)),
            decreases l - i,
        {
            match self.elements[i].check(ctx, clone_constraint(&elem_constraints)) {
                Err(f) => {
                    return Err(f);
                },
                Ok(None) => {
                    return Err(Failure::new("Expected type result"));
                },
                Ok(Some(t)) => {
                    if !t.equals(&first) {
                        return Err(Failure::new("Array values must be of equal type"));
                    }
                },
            }
            i += 1;
        }
        Ok(Some(Type::from_array_type(first, l)))
    }
}

impl SumType {
    /// Accepts the sum type as it is.
    pub fn check(&self, ctx: &mut Context, ctr: Option<Constraints>) -> (r: Result<
        Option<Type>,
        Failure,
    >)
        ensures
            checked(r, *final(ctx)) == check_tree(
                Tree::SumType(*self)@,
                old(ctx)@,
                constraint_view(ctr),
            ),
    {
        Ok(None)
    }
}

impl ProductType {
    /// Puts the product type together from its members.
    pub fn check(&self, ctx: &mut Context, ctr: Option<Constraints>) -> (r: Result<
        Option<Type>,
        Failure,
    >)
        ensures
            checked(r, *final(ctx)) == check_tree(
                Tree::ProductType(*self)@,
                old(ctx)@,
                constraint_view(ctr),
            ),
        decreases self,
    {
        check_members(&self.elements, ctx, None)
    }
}

impl IdentifierType {
    /// Looks the type name up.
    pub fn check(&self, ctx: &mut Context, ctr: Option<Constraints>) -> (r: Result<
        Option<Type>,
        Failure,
    >)
        ensures
            checked(r, *final(ctx)) == check_tree(
                Tree::IdentifierType(*self)@,
                old(ctx)@,
                constraint_view(ctr),
            ),
    {
        match ctx.get_type(&self.name) {
            None => Err(
                Failure::from(
                    String::from_str("Unknown type identifier: ").concat(self.name.text.as_str()),
                ),
            ),
            Some(t) => Ok(Some(t)),
        }
    }
}

impl FunctionType {
    /// Puts the function type together from its two sides.
    pub fn check(&self, ctx: &mut Context, ctr: Option<Constraints>) -> (r: Result<
        Option<Type>,
        Failure,
    >)
        ensures
            checked(r, *final(ctx)) == check_tree(
                Tree::FunctionType(*self)@,
                old(ctx)@,
                constraint_view(ctr),
            ),
        decreases self,
    {
        match (*self.from).check(ctx, None) {
            Err(f) => Err(f),
            Ok(None) => Err(Failure::new("Expected lhs to return type")),
            Ok(Some(t)) => {
                match (*self.to).check(ctx, None) {
                    Err(f) => Err(f),
                    Ok(None) => Err(Failure::new("Expected rhs to return type")),
                    Ok(Some(t2)) => Ok(Some(Type::from_function(t, t2))),
                }
            },
        }
    }
}

impl ArrayType {
    /// Puts the array type together from its element type and its length.
    pub fn check(&self, ctx: &mut Context, ctr: Option<Constraints>) -> (r: Result<
        Option<Type>,
        Failure,
    >)
        ensures
            checked(r, *final(ctx)) == check_tree(
                Tree::ArrayType(*self)@,
                old(ctx)@,
                constraint_view(ctr),
            ),
        decreases self,
    {
        match (*self.value_type).check(ctx, None) {
            Err(f) => Err(f),
            Ok(None) => Err(Failure::new("Expected array value type to return type")),
            Ok(Some(t)) => Ok(Some(Type::from_array_type(t, self.length))),
        }
    }
}

impl Tree {
    /// Checks the node in `ctx` under the constraint `ctr`, and leaves in
    /// `ctx` what the node has bound.
    pub fn check(&self, ctx: &mut Context, ctr: Option<Constraints>) -> (r: Result<
        Option<Type>,
        Failure,
    >)
        ensures
            checked(r, *final(ctx)) == check_tree(self@, old(ctx)@, constraint_view(ctr)),
        decreases self,
    {
        match self {
            Tree::File(n) => n.check(ctx, ctr),
            Tree::Let(n) => n.check(ctx, ctr),
            Tree::Block(n) => n.check(ctx, ctr),
            Tree::Identifier(n) => n.check(ctx, ctr),
            Tree::BinOp(n) => n.check(ctx, ctr),
            Tree::Lambda(n) => n.check(ctx, ctr),
            Tree::App(n) => n.check(ctx, ctr),
            Tree::Number(n) => n.check(ctx, ctr),
            Tree::Boolean(n) => n.check(ctx, ctr),
            Tree::Text(n) => n.check(ctx, ctr),
            Tree::Tuple(n) => n.check(ctx, ctr),
            Tree::Array(n) => n.check(ctx, ctr),
            Tree::SumType(n) => n.check(ctx, ctr),
            Tree::ProductType(n) => n.check(ctx, ctr),
            Tree::IdentifierType(n) => n.check(ctx, ctr),
            Tree::FunctionType(n) => n.check(ctx, ctr),
            Tree::ArrayType(n) => n.check(ctx, ctr),
            Tree::UnitType => Ok(Some(Type::UnitType)),
        }
    }
}

impl Context {
    /// The context every program starts in: the native functions and the
    /// built-in type names.
    pub fn standard() -> (ctx: Context)
        ensures
            ctx@ == prelude(),
    {
        let mut ctx = Context::new();
        ctx.add_variable(
            Name::from("std.print"),
            Type::from_function(Type::from_atom(AtomTypeKind::Text), Type::UnitType),
        );
        ctx.add_variable(
            Name::from("std.println"),
            Type::from_function(Type::from_atom(AtomTypeKind::Text), Type::UnitType),
        );
        ctx.add_variable(
            Name::from("std.read"),
            Type::from_function(Type::from_atom(AtomTypeKind::Text), Type::from_atom(AtomTypeKind::Text)),
        );
        ctx.add_variable(
            Name::from("std.to_string"),
            Type::from_function(Type::from_atom(AtomTypeKind::UI8), Type::from_atom(AtomTypeKind::Text)),
        );
        ctx.add_type(Name::from("ui8"), Type::from_atom(AtomTypeKind::UI8));
        ctx.add_type(Name::from("string"), Type::from_atom(AtomTypeKind::Text));
        ctx
    }
}

/// Checks a whole program in the standard context.
pub fn check(t: &Tree) -> (r: Result<Option<Type>, Failure>)
    ensures
        match r {
            Ok(Some(ty)) => check_tree(t@, prelude(), None).result == Ok::<
                Option<TypeView>,
                Seq<char>,
            >(Some(ty@)),
            Ok(None) => check_tree(t@, prelude(), None).result == Ok::<Option<TypeView>, Seq<char>>(
                None,
            ),
            Err(f) => check_tree(t@, prelude(), None).result == Err::<Option<TypeView>, Seq<char>>(
                f.message@,
            ),
        },
{
    let mut ctx = Context::standard();
    t.check(&mut ctx, None)
}

} // verus!
