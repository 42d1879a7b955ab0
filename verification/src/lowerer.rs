//! Lowering: the surface tree becomes the arena tree. A node whose children
//! need to know its identity is created first with placeholders for them and
//! filled in once they exist. A `let` that binds a lambda becomes a function.
use crate::collections::flat_tree::{lookup, parents_precede, Slot};
use crate::data::hlr_ast;
use crate::data::hlr_ast::{identifiers_view, tree_view, trees_view, TreeView};
use crate::data::mlr_ast;
use crate::data::mlr_ast::{arena_view, error_id, root_id, Node, NodeId, NodeView, SlotView, Tree};
use vstd::prelude::*;
use vstd::string::*;

verus! {

/// Why lowering failed.
#[derive(Debug)]
pub struct Failure {
    pub message: String,
}

impl Failure {
    pub fn new(m: &str) -> (f: Failure)
        ensures
            f.message@ == m@,
    {
        Failure { message: String::from_str(m) }
    }

    pub fn from(m: String) -> (f: Failure)
        ensures
            f.message == m,
    {
        Failure { message: m }
    }
}

/// How lowering a node ends: with the identity of the node made for it, or
/// with the message of the failure; and with the arena it leaves behind.
pub struct Lowered {
    pub result: Result<NodeId, Seq<char>>,
    pub arena: Seq<SlotView>,
}

/// How lowering a list of nodes ends.
pub struct LoweredList {
    pub result: Result<Seq<NodeId>, Seq<char>>,
    pub arena: Seq<SlotView>,
}

/// The arena with one more live node, holding `node` under `p`.
pub open spec fn placed(arena: Seq<SlotView>, node: NodeView, p: NodeId) -> Seq<SlotView> {
    arena.push(SlotView { node, live: true, parent: p })
}

/// The arena with the live node `id` holding `node` instead.
pub open spec fn filled(arena: Seq<SlotView>, id: NodeId, node: NodeView) -> Seq<SlotView> {
    arena.update(id as int, SlotView { node, live: true, parent: arena[id as int].parent })
}

/// Lowering made the node `id`.
pub open spec fn done(id: NodeId, arena: Seq<SlotView>) -> Lowered {
    Lowered { result: Ok(id), arena }
}

/// The operator of the arena tree for an operator of the surface tree.
pub open spec fn lower_op_type_spec(op: hlr_ast::BinOpType) -> mlr_ast::BinOpType {
    match op {
        hlr_ast::BinOpType::Mult => mlr_ast::BinOpType::Mult,
        hlr_ast::BinOpType::Plus => mlr_ast::BinOpType::Plus,
        hlr_ast::BinOpType::ArrIndex => mlr_ast::BinOpType::ArrIndex,
    }
}

/// What lowering a list into the node `id` comes to: the node lists the
/// members made, or the failure is passed on.
pub open spec fn listed(
    members: LoweredList,
    id: NodeId,
    node: spec_fn(Seq<NodeId>) -> NodeView,
) -> Lowered {
    match members.result {
        Err(message) => Lowered { result: Err(message), arena: members.arena },
        Ok(ids) => done(id, filled(members.arena, id, node(ids))),
    }
}

/// The node made for a surface node under the parent `p`, and the arena
/// after it. The node takes the next free identity, before any of its
/// children; it is created with placeholders for them and filled in once they
/// are there.
///
/// A file lists the nodes that its statements become. A block becomes a
/// sequence of its statements. A binding becomes a node with three children:
/// the bound name, the declared type and the initializer. Where the
/// initializer is a lambda, the node is a function instead: the bound name is
/// its name, and the lambda's body and parameters are its implementation and
/// parameters. A lambda anywhere else is not lowered. An application names
/// the function it calls: the callee is an identifier. Everything else keeps
/// its shape, its operator and the order of its members.
pub open spec fn lower_tree(t: TreeView, arena: Seq<SlotView>, p: NodeId) -> Lowered
    decreases t, 0nat,
{
    let id = arena.len() as NodeId;
    let next = (arena.len() + 1) as NodeId;
    match t {
        TreeView::File { statements } => listed(
            lower_list(
                statements,
                0,
                placed(arena, NodeView::File { functions: Seq::empty() }, p),
                id,
                Seq::empty(),
            ),
            id,
            |ids: Seq<NodeId>| NodeView::File { functions: ids },
        ),
        TreeView::Let { id: name, exp_type, exp } => {
            let named = placed(
                placed(arena, NodeView::Let { id: error_id, exp_type: error_id, exp: error_id }, p),
                NodeView::Identifier { name },
                id,
            );
            let declared = lower_tree(*exp_type, named, id);
            match declared.result {
                Err(_) => declared,
                Ok(type_id) => match *exp {
                    TreeView::Lambda { parameters, body } => {
                        let lowered_body = lower_tree(*body, declared.arena, id);
                        match lowered_body.result {
                            Err(_) => lowered_body,
                            Ok(body_id) => done(
                                id,
                                filled(
                                    lowered_body.arena + parameter_slots(parameters, id),
                                    id,
                                    NodeView::GaleFunction {
                                        name: next,
                                        parameters: ids_from(lowered_body.arena.len(), parameters.len()),
                                        implementation: body_id,
                                    },
                                ),
                            ),
                        }
                    },
                    _ => {
                        let initializer = lower_tree(*exp, declared.arena, id);
                        match initializer.result {
                            Err(_) => initializer,
                            Ok(exp_id) => done(
                                id,
                                filled(
                                    initializer.arena,
                                    id,
                                    NodeView::Let { id: next, exp_type: type_id, exp: exp_id },
                                ),
                            ),
                        }
                    },
                },
            }
        },
        TreeView::Block { statements } => listed(
            lower_list(
                statements,
                0,
                placed(arena, NodeView::Sequence { elements: Seq::empty() }, p),
                id,
                Seq::empty(),
            ),
            id,
            |ids: Seq<NodeId>| NodeView::Sequence { elements: ids },
        ),
        TreeView::Identifier { name } => done(id, placed(arena, NodeView::Identifier { name }, p)),
        TreeView::BinOp { lhs, rhs, op_type } => {
            let op_type = lower_op_type_spec(op_type);
            let left = lower_tree(
                *lhs,
                placed(arena, NodeView::BinOp { lhs: error_id, rhs: error_id, op_type }, p),
                id,
            );
            match left.result {
                Err(_) => left,
                Ok(lhs_id) => {
                    let right = lower_tree(*rhs, left.arena, id);
                    match right.result {
                        Err(_) => right,
                        Ok(rhs_id) => done(
                            id,
                            filled(
                                right.arena,
                                id,
                                NodeView::BinOp { lhs: lhs_id, rhs: rhs_id, op_type },
                            ),
                        ),
                    }
                },
            }
        },
        TreeView::Lambda { .. } => Lowered {
            result: Err("Internal invariant violated: a lambda is lowered only where a let binds it"@),
            arena,
        },
        TreeView::App { fn_exp, param_exp } => match *fn_exp {
            TreeView::Identifier { name } => {
                let named = placed(
                    placed(arena, NodeView::Apply { fn_name: error_id, param: error_id }, p),
                    NodeView::Identifier { name },
                    id,
                );
                let argument = lower_tree(*param_exp, named, id);
                match argument.result {
                    Err(_) => argument,
                    Ok(param_id) => done(
                        id,
                        filled(argument.arena, id, NodeView::Apply { fn_name: next, param: param_id }),
                    ),
                }
            },
            _ => Lowered {
                result: Err("Internal invariant violated: only a named function is applied"@),
                arena,
            },
        },
        TreeView::Number { value } => done(id, placed(arena, NodeView::Number { value }, p)),
        TreeView::Boolean { value } => done(id, placed(arena, NodeView::Boolean { value }, p)),
        TreeView::Text { text } => done(id, placed(arena, NodeView::Text { text }, p)),
        TreeView::Tuple { elements } => listed(
            lower_list(
                elements,
                0,
                placed(arena, NodeView::Tuple { elements: Seq::empty() }, p),
                id,
                Seq::empty(),
            ),
            id,
            |ids: Seq<NodeId>| NodeView::Tuple { elements: ids },
        ),
        TreeView::Array { elements } => listed(
            lower_list(
                elements,
                0,
                placed(arena, NodeView::Array { elements: Seq::empty() }, p),
                id,
                Seq::empty(),
            ),
            id,
            |ids: Seq<NodeId>| NodeView::Array { elements: ids },
        ),
        TreeView::SumType { options } => listed(
            lower_list(
                options,
                0,
                placed(arena, NodeView::SumType { options: Seq::empty() }, p),
                id,
                Seq::empty(),
            ),
            id,
            |ids: Seq<NodeId>| NodeView::SumType { options: ids },
        ),
        TreeView::ProductType { elements } => listed(
            lower_list(
                elements,
                0,
                placed(arena, NodeView::ProductType { elements: Seq::empty() }, p),
                id,
                Seq::empty(),
            ),
            id,
            |ids: Seq<NodeId>| NodeView::ProductType { elements: ids },
        ),
        TreeView::IdentifierType { name } => done(
            id,
            placed(arena, NodeView::IdentifierType { name }, p),
        ),
        TreeView::FunctionType { from, to } => {
            let lowered_from = lower_tree(
                *from,
                placed(arena, NodeView::FunctionType { from: error_id, to: error_id }, p),
                id,
            );
            match lowered_from.result {
                Err(_) => lowered_from,
                Ok(from_id) => {
                    let lowered_to = lower_tree(*to, lowered_from.arena, id);
                    match lowered_to.result {
                        Err(_) => lowered_to,
                        Ok(to_id) => done(
                            id,
                            filled(
                                lowered_to.arena,
                                id,
                                NodeView::FunctionType { from: from_id, to: to_id },
                            ),
                        ),
                    }
                },
            }
        },
        TreeView::ArrayType { value_type, length } => {
            let value = lower_tree(
                *value_type,
                placed(arena, NodeView::ArrayType { value_type: error_id, length: 0 }, p),
                id,
            );
            match value.result {
                Err(_) => value,
                Ok(value_id) => done(
                    id,
                    filled(value.arena, id, NodeView::ArrayType { value_type: value_id, length }),
                ),
            }
        },
        TreeView::UnitType => done(id, placed(arena, NodeView::UnitType, p)),
    }
}

/// The nodes made for the members of a list from the `i`-th on, all under
/// `p`; `found` holds the identities of the members before.
pub open spec fn lower_list(
    v: Seq<TreeView>,
    i: int,
    arena: Seq<SlotView>,
    p: NodeId,
    found: Seq<NodeId>,
) -> LoweredList
    decreases v, v.len() - i,
{
    if i < 0 || i >= v.len() {
        LoweredList { result: Ok(found), arena }
    } else {
        let c = lower_tree(v[i], arena, p);
        match c.result {
            Err(message) => LoweredList { result: Err(message), arena: c.arena },
            Ok(id) => lower_list(v, i + 1, c.arena, p, found.push(id)),
        }
    }
}

/// The identifier nodes made for the parameters of a lambda, all under `p`.
pub open spec fn parameter_slots(params: Seq<Seq<char>>, p: NodeId) -> Seq<SlotView> {
    Seq::new(
        params.len(),
        |k: int| SlotView { node: NodeView::Identifier { name: params[k] }, live: true, parent: p },
    )
}

/// The identities of `count` nodes made in a row, the first of them `first`.
pub open spec fn ids_from(first: nat, count: nat) -> Seq<NodeId> {
    Seq::new(count, |k: int| (first + k) as NodeId)
}

/// The arena `after` came from `before` by lowering: what was there is
/// untouched, and what was added is what `expected` says.
pub open spec fn lowering(
    before: Seq<Slot<Node>>,
    after: Seq<Slot<Node>>,
    r: Result<NodeId, Failure>,
    expected: Lowered,
) -> bool {
    &&& grown(before, after)
    &&& arena_view(after) == expected.arena
    &&& match r {
        Ok(id) => expected.result == Ok::<NodeId, Seq<char>>(id) && id == before.len() && id
            < after.len() && after[id as int].live,
        Err(f) => expected.result == Err::<NodeId, Seq<char>>(f.message@),
    }
}

/// `after` is a well-formed arena that begins with the slots of `before`.
pub open spec fn grown(before: Seq<Slot<Node>>, after: Seq<Slot<Node>>) -> bool {
    &&& parents_precede(after)
    &&& before.len() <= after.len()
    &&& forall|i: int| 0 <= i < before.len() ==> after[i] == before[i]
}

/// A parent that `new_node` accepts in an arena of this length.
pub open spec fn parent_fits(len: nat, p: NodeId) -> bool {
    p < len || (p == 0 && len == 0)
}

/// Creates a live node under `p`.
fn place(t: &mut Tree, node: Node, p: NodeId) -> (id: NodeId)
    requires
        old(t).wf(),
        parent_fits(old(t)@.len(), p),
    ensures
        grown(old(t)@, final(t)@),
        id == old(t)@.len(),
        final(t)@.len() == id + 1,
        final(t)@[id as int].live,
        arena_view(final(t)@) == placed(arena_view(old(t)@), node@, p),
{
    let id = t.new_node(node, p);
    assert(arena_view(t@) =~= placed(arena_view(old(t)@), node@, p));
    id
}

/// Gives the live node `id` its final value.
fn fill(t: &mut Tree, id: NodeId, node: Node)
    requires
        old(t).wf(),
        id < old(t)@.len(),
        old(t)@[id as int].live,
    ensures
        parents_precede(final(t)@),
        final(t)@.len() == old(t)@.len(),
        final(t)@[id as int].live,
        forall|i: int| 0 <= i < old(t)@.len() && i != id ==> final(t)@[i] == old(t)@[i],
        arena_view(final(t)@) == filled(arena_view(old(t)@), id, node@),
{
    t.set_node_value(id, node);
    assert(arena_view(t@) =~= filled(arena_view(old(t)@), id, node@));
}

/// The node behind an identity, if there is an identity and its node is
/// live.
pub fn map_to_value(id: Option<NodeId>, t: &Tree) -> (r: Option<&Node>)
    requires
        id matches Some(n) ==> n < t@.len(),
    ensures
        match r {
            Some(node) => id matches Some(n) && lookup(t@, n as int) == Some(*node),
            None => id matches Some(n) ==> lookup(t@, n as int).is_none(),
        },
{
    match id {
        Some(real_id) => t.get_node_value(real_id),
        None => None,
    }
}

/// An identity together with the node behind it, if there is an identity
/// and its node is live.
pub fn map_to_id_value(id: Option<NodeId>, t: &Tree) -> (r: Option<(NodeId, &Node)>)
    requires
        id matches Some(n) ==> n < t@.len(),
    ensures
        match r {
            Some((n, node)) => id == Some(n) && lookup(t@, n as int) == Some(*node),
            None => id matches Some(n) ==> lookup(t@, n as int).is_none(),
        },
{
    match id {
        Some(real_id) => match t.get_node_value(real_id) {
            Some(n) => Some((real_id, n)),
            None => None,
        },
        None => None,
    }
}

fn copy_name(n: &hlr_ast::Name) -> (r: mlr_ast::Name)
    ensures
        r.text@ == n.text@,
{
    mlr_ast::Name::from_string(n.text.clone())
}

/// The operator of the arena tree for an operator of the surface tree.
pub fn lower_op_type(op: hlr_ast::BinOpType) -> (r: mlr_ast::BinOpType)
    ensures
        r == lower_op_type_spec(op),
{
    match op {
        hlr_ast::BinOpType::Mult => mlr_ast::BinOpType::Mult,
        hlr_ast::BinOpType::Plus => mlr_ast::BinOpType::Plus,
        hlr_ast::BinOpType::ArrIndex => mlr_ast::BinOpType::ArrIndex,
    }
}

/// Lowers the members of a list, one after the other, under `p`.
pub fn lower_multiple(ns: &Vec<hlr_ast::Tree>, t: &mut Tree, p: NodeId) -> (r: Result<
    Vec<NodeId>,
    Failure,
>)
    requires
        old(t).wf(),
        p < old(t)@.len(),
    ensures
        grown(old(t)@, final(t)@),
        arena_view(final(t)@) == lower_list(trees_view(*ns), 0, arena_view(old(t)@), p, Seq::empty()).arena,
        match r {
            Ok(ids) => lower_list(trees_view(*ns), 0, arena_view(old(t)@), p, Seq::empty()).result == Ok::<
                Seq<NodeId>,
                Seq<char>,
            >(ids@),
            Err(f) => lower_list(trees_view(*ns), 0, arena_view(old(t)@), p, Seq::empty()).result == Err::<
                Seq<NodeId>,
                Seq<char>,
            >(f.message@),
        },
    decreases ns,
{
    let mut elems: Vec<NodeId> = Vec::new();
    let mut i: usize = 0;
    while i < ns.len()
        invariant
            i <= ns.len(),
            t.wf(),
            p < old(t)@.len(),
            grown(old(t)@, t@),
            lower_list(trees_view(*ns), i as int, arena_view(t@), p, elems@) == lower_list(
                trees_view(*ns),
                0,
                arena_view(old(t)@),
                p,
                Seq::empty(),
            ),
        decreases ns.len() - i,
    {
        match ns[i].lower(t, p) {
            Err(f) => {
                return Err(f);
            },
            Ok(id) => {
                elems.push(id);
            },
        }
        i += 1;
    }
    Ok(elems)
}

impl hlr_ast::File {
    /// Makes the file node and, under it, the nodes of its statements.
    pub fn lower(&self, t: &mut Tree, p: NodeId) -> (r: Result<NodeId, Failure>)
        requires
            old(t).wf(),
            parent_fits(old(t)@.len(), p),
        ensures
            lowering(
                old(t)@,
                final(t)@,
                r,
                lower_tree(hlr_ast::Tree::File(*self)@, arena_view(old(t)@), p),
            ),
        decreases self,
    {
        let file_id = place(t, Node::File(mlr_ast::File::new()), p);
        match lower_multiple(&self.statements, t, file_id) {
            Err(f) => Err(f),
            Ok(functions) => {
                fill(t, file_id, Node::from_file(functions));
                Ok(file_id)
            },
        }
    }
}

impl hlr_ast::Let {
    /// Makes the node of the binding, or of the function that it defines.
    pub fn lower(&self, t: &mut Tree, p: NodeId) -> (r: Result<NodeId, Failure>)
        requires
            old(t).wf(),
            parent_fits(old(t)@.len(), p),
        ensures
            lowering(
                old(t)@,
                final(t)@,
                r,
                lower_tree(hlr_ast::Tree::Let(*self)@, arena_view(old(t)@), p),
            ),
        decreases self,
    {
        proof {
            reveal_with_fuel(tree_view, 2);
        }
        let let_id = place(t, Node::from_let(error_id, error_id, error_id), p);
        let id_id = place(t, Node::from_id(copy_name(&self.id.name)), let_id);
        let exp_type_id = match (*self.exp_type).lower(t, let_id) {
            Err(f) => {
                return Err(f);
            },
            Ok(id) => id,
        };
        match &*self.exp {
            hlr_ast::Tree::Lambda(l) => {
                let exp_id = match (*l.body).lower(t, let_id) {
                    Err(f) => {
                        return Err(f);
                    },
                    Ok(id) => id,
                };
                let ghost start = t@;
                let mut params: Vec<NodeId> = Vec::new();
                let mut i: usize = 0;
                let ghost slots = parameter_slots(identifiers_view(l.parameters@), let_id);
                assert(arena_view(t@) =~= arena_view(start) + slots.take(0));
                while i < l.parameters.len()
                    invariant
                        i <= l.parameters.len(),
                        t.wf(),
                        grown(start, t@),
                        let_id < start.len(),
                        t@.len() == start.len() + i,
                        slots == parameter_slots(identifiers_view(l.parameters@), let_id),
                        arena_view(t@) == arena_view(start) + slots.take(i as int),
                        params@ == ids_from(start.len(), i as nat),
                    decreases l.parameters.len() - i,
                {
                    let param_id = place(t, Node::from_id(copy_name(&l.parameters[i].name)), let_id);
                    params.push(param_id);
                    proof {
                        assert(slots.take(i + 1) =~= slots.take(i as int).push(slots[i as int]));
                        assert(arena_view(t@) =~= arena_view(start) + slots.take(i + 1));
                        assert(params@ =~= ids_from(start.len(), (i + 1) as nat));
                    }
                    i += 1;
                }
                assert(slots.take(slots.len() as int) =~= slots);
                fill(t, let_id, Node::from_gale_fn(id_id, params, exp_id));
                Ok(let_id)
            },
            _ => {
                let exp_id = match (*self.exp).lower(t, let_id) {
                    Err(f) => {
                        return Err(f);
                    },
                    Ok(id) => id,
                };
                fill(t, let_id, Node::from_let(id_id, exp_type_id, exp_id));
                Ok(let_id)
            },
        }
    }
}

impl hlr_ast::Block {
    /// Makes a sequence of the statements of the block.
    pub fn lower(&self, t: &mut Tree, p: NodeId) -> (r: Result<NodeId, Failure>)
        requires
            old(t).wf(),
            parent_fits(old(t)@.len(), p),
        ensures
            lowering(
                old(t)@,
                final(t)@,
                r,
                lower_tree(hlr_ast::Tree::Block(*self)@, arena_view(old(t)@), p),
            ),
        decreases self,
    {
        let seq_id = place(t, Node::from_seq(Vec::new()), p);
        match lower_multiple(&self.statements, t, seq_id) {
            Err(f) => Err(f),
            Ok(res) => {
                fill(t, seq_id, Node::from_seq(res));
                Ok(seq_id)
            },
        }
    }
}

impl hlr_ast::Identifier {
    /// Makes the node of the identifier.
    pub fn lower(&self, t: &mut Tree, p: NodeId) -> (r: Result<NodeId, Failure>)
        requires
            old(t).wf(),
            parent_fits(old(t)@.len(), p),
        ensures
            lowering(
                old(t)@,
                final(t)@,
                r,
                lower_tree(hlr_ast::Tree::Identifier(*self)@, arena_view(old(t)@), p),
            ),
    {
        Ok(place(t, Node::from_id(copy_name(&self.name)), p))
    }
}

impl hlr_ast::BinOp {
    /// Makes the node of the operation and, under it, its two sides.
    pub fn lower(&self, t: &mut Tree, p: NodeId) -> (r: Result<NodeId, Failure>)
        requires
            old(t).wf(),
            parent_fits(old(t)@.len(), p),
        ensures
            lowering(
                old(t)@,
                final(t)@,
                r,
                lower_tree(hlr_ast::Tree::BinOp(*self)@, arena_view(old(t)@), p),
            ),
        decreases self,
    {
        let op_type = lower_op_type(self.op_type);
        let binop_id = place(t, Node::from_binop(error_id, error_id, op_type), p);
        let lhs = match (*self.lhs).lower(t, binop_id) {
            Err(f) => {
                return Err(f);
            },
            Ok(id) => id,
        };
        let rhs = match (*self.rhs).lower(t, binop_id) {
            Err(f) => {
                return Err(f);
            },
            Ok(id) => id,
        };
        fill(t, binop_id, Node::from_binop(lhs, rhs, op_type));
        Ok(binop_id)
    }
}

impl hlr_ast::Lambda {
    /// A lambda has no node of its own: it is lowered where a `let` binds it.
    pub fn lower(&self, t: &mut Tree, p: NodeId) -> (r: Result<NodeId, Failure>)
        requires
            old(t).wf(),
        ensures
            lowering(
                old(t)@,
                final(t)@,
                r,
                lower_tree(hlr_ast::Tree::Lambda(*self)@, arena_view(old(t)@), p),
            ),
    {
        Err(Failure::new(
            "Internal invariant violated: a lambda is lowered only where a let binds it",
        ))
    }
}

impl hlr_ast::App {
    /// Makes the node of the call and, under it, the name and the argument.
    pub fn lower(&self, t: &mut Tree, p: NodeId) -> (r: Result<NodeId, Failure>)
        requires
            old(t).wf(),
            parent_fits(old(t)@.len(), p),
        ensures
            lowering(
                old(t)@,
                final(t)@,
                r,
                lower_tree(hlr_ast::Tree::App(*self)@, arena_view(old(t)@), p),
            ),
        decreases self,
    {
        proof {
            reveal_with_fuel(tree_view, 2);
        }
        match &*self.fn_exp {
            hlr_ast::Tree::Identifier(id) => {
                let call_id = place(t, Node::from_apply(error_id, error_id), p);
                let id_id = place(t, Node::from_id(copy_name(&id.name)), call_id);
                let param_id = match (*self.param_exp).lower(t, call_id) {
                    Err(f) => {
                        return Err(f);
                    },
                    Ok(id) => id,
                };
                fill(t, call_id, Node::from_apply(id_id, param_id));
                Ok(call_id)
            },
            _ => Err(Failure::new("Internal invariant violated: only a named function is applied")),
        }
    }
}

impl hlr_ast::Number {
    /// Makes the node of the number.
    pub fn lower(&self, t: &mut Tree, p: NodeId) -> (r: Result<NodeId, Failure>)
        requires
            old(t).wf(),
            parent_fits(old(t)@.len(), p),
        ensures
            lowering(
                old(t)@,
                final(t)@,
                r,
                lower_tree(hlr_ast::Tree::Number(*self)@, arena_view(old(t)@), p),
            ),
    {
        Ok(place(t, Node::from_num(self.value), p))
    }
}

impl hlr_ast::Boolean {
    /// Makes the node of the truth value.
    pub fn lower(&self, t: &mut Tree, p: NodeId) -> (r: Result<NodeId, Failure>)
        requires
            old(t).wf(),
            parent_fits(old(t)@.len(), p),
        ensures
            lowering(
                old(t)@,
                final(t)@,
                r,
                lower_tree(hlr_ast::Tree::Boolean(*self)@, arena_view(old(t)@), p),
            ),
    {
        Ok(place(t, Node::from_bool(self.value), p))
    }
}

impl hlr_ast::Text {
    /// Makes the node of the text.
    pub fn lower(&self, t: &mut Tree, p: NodeId) -> (r: Result<NodeId, Failure>)
        requires
            old(t).wf(),
            parent_fits(old(t)@.len(), p),
        ensures
            lowering(
                old(t)@,
                final(t)@,
                r,
                lower_tree(hlr_ast::Tree::Text(*self)@, arena_view(old(t)@), p),
            ),
    {
        Ok(place(t, Node::from_text(self.text.clone()), p))
    }
}

impl hlr_ast::Tuple {
    /// Makes the node of the tuple and, under it, its members.
    pub fn lower(&self, t: &mut Tree, p: NodeId) -> (r: Result<NodeId, Failure>)
        requires
            old(t).wf(),
            parent_fits(old(t)@.len(), p),
        ensures
            lowering(
                old(t)@,
                final(t)@,
                r,
                lower_tree(hlr_ast::Tree::Tuple(*self)@, arena_view(old(t)@), p),
            ),
        decreases self,
    {
        let tuple_id = place(t, Node::from_tuple(Vec::new()), p);
        match lower_multiple(&self.elements, t, tuple_id) {
            Err(f) => Err(f),
            Ok(elems) => {
                fill(t, tuple_id, Node::from_tuple(elems));
                Ok(tuple_id)
            },
        }
    }
}

impl hlr_ast::Array {
    /// Makes the node of the array and, under it, its elements.
    pub fn lower(&self, t: &mut Tree, p: NodeId) -> (r: Result<NodeId, Failure>)
        requires
            old(t).wf(),
            parent_fits(old(t)@.len(), p),
        ensures
            lowering(
                old(t)@,
                final(t)@,
                r,
                lower_tree(hlr_ast::Tree::Array(*self)@, arena_view(old(t)@), p),
            ),
        decreases self,
    {
        let array_id = place(t, Node::from_array(Vec::new()), p);
        match lower_multiple(&self.elements, t, array_id) {
            Err(f) => Err(f),
            Ok(elems) => {
                fill(t, array_id, Node::from_array(elems));
                Ok(array_id)
            },
        }
    }
}

impl hlr_ast::SumType {
    /// Makes the node of the sum type and, under it, its options.
    pub fn lower(&self, t: &mut Tree, p: NodeId) -> (r: Result<NodeId, Failure>)
        requires
            old(t).wf(),
            parent_fits(old(t)@.len(), p),
        ensures
            lowering(
                old(t)@,
                final(t)@,
                r,
                lower_tree(hlr_ast::Tree::SumType(*self)@, arena_view(old(t)@), p),
            ),
        decreases self,
    {
        let sum_id = place(t, Node::from_sum_type(Vec::new()), p);
        match lower_multiple(&self.options, t, sum_id) {
            Err(f) => Err(f),
            Ok(elems) => {
                fill(t, sum_id, Node::from_sum_type(elems));
                Ok(sum_id)
            },
        }
    }
}

impl hlr_ast::ProductType {
    /// Makes the node of the product type and, under it, its members.
    pub fn lower(&self, t: &mut Tree, p: NodeId) -> (r: Result<NodeId, Failure>)
        requires
            old(t).wf(),
            parent_fits(old(t)@.len(), p),
        ensures
            lowering(
                old(t)@,
                final(t)@,
                r,
                lower_tree(hlr_ast::Tree::ProductType(*self)@, arena_view(old(t)@), p),
            ),
        decreases self,
    {
        let prod_id = place(t, Node::from_product_type(Vec::new()), p);
        match lower_multiple(&self.elements, t, prod_id) {
            Err(f) => Err(f),
            Ok(elems) => {
                fill(t, prod_id, Node::from_product_type(elems));
                Ok(prod_id)
            },
        }
    }
}

impl hlr_ast::IdentifierType {
    /// Makes the node of the type name.
    pub fn lower(&self, t: &mut Tree, p: NodeId) -> (r: Result<NodeId, Failure>)
        requires
            old(t).wf(),
            parent_fits(old(t)@.len(), p),
        ensures
            lowering(
                old(t)@,
                final(t)@,
                r,
                lower_tree(hlr_ast::Tree::IdentifierType(*self)@, arena_view(old(t)@), p),
            ),
    {
        Ok(place(t, Node::from_type_id(copy_name(&self.name)), p))
    }
}

impl hlr_ast::FunctionType {
    /// Makes the node of the function type and, under it, its two sides.
    pub fn lower(&self, t: &mut Tree, p: NodeId) -> (r: Result<NodeId, Failure>)
        requires
            old(t).wf(),
            parent_fits(old(t)@.len(), p),
        ensures
            lowering(
                old(t)@,
                final(t)@,
                r,
                lower_tree(hlr_ast::Tree::FunctionType(*self)@, arena_view(old(t)@), p),
            ),
        decreases self,
    {
        let t_id = place(t, Node::from_function_type(error_id, error_id), p);
        let from_id = match (*self.from).lower(t, t_id) {
            Err(f) => {
                return Err(f);
            },
            Ok(id) => id,
        };
        let to_id = match (*self.to).lower(t, t_id) {
            Err(f) => {
                return Err(f);
            },
            Ok(id) => id,
        };
        fill(t, t_id, Node::from_function_type(from_id, to_id));
        Ok(t_id)
    }
}

impl hlr_ast::ArrayType {
    /// Makes the node of the array type and, under it, its element type.
    pub fn lower(&self, t: &mut Tree, p: NodeId) -> (r: Result<NodeId, Failure>)
        requires
            old(t).wf(),
            parent_fits(old(t)@.len(), p),
        ensures
            lowering(
                old(t)@,
                final(t)@,
                r,
                lower_tree(hlr_ast::Tree::ArrayType(*self)@, arena_view(old(t)@), p),
            ),
        decreases self,
    {
        let t_id = place(t, Node::from_array_type(error_id, 0), p);
        let vt_id = match (*self.value_type).lower(t, t_id) {
            Err(f) => {
                return Err(f);
            },
            Ok(id) => id,
        };
        fill(t, t_id, Node::from_array_type(vt_id, self.length));
        Ok(t_id)
    }
}

/// Makes the node for the unit type under `p`.
pub fn make_unit_type(t: &mut Tree, p: NodeId) -> (r: Result<NodeId, Failure>)
    requires
        old(t).wf(),
        parent_fits(old(t)@.len(), p),
    ensures
        lowering(old(t)@, final(t)@, r, lower_tree(TreeView::UnitType, arena_view(old(t)@), p)),
{
    Ok(place(t, Node::from_unit_type(), p))
}

impl hlr_ast::Tree {
    /// Lowers the node into the arena `t`, under the parent `p`.
    pub fn lower(&self, t: &mut Tree, p: NodeId) -> (r: Result<NodeId, Failure>)
        requires
            old(t).wf(),
            parent_fits(old(t)@.len(), p),
        ensures
            lowering(old(t)@, final(t)@, r, lower_tree(self@, arena_view(old(t)@), p)),
        decreases self,
    {
        match self {
            hlr_ast::Tree::File(f) => f.lower(t, p),
            hlr_ast::Tree::Let(f) => f.lower(t, p),
            hlr_ast::Tree::Block(f) => f.lower(t, p),
            hlr_ast::Tree::Identifier(f) => f.lower(t, p),
            hlr_ast::Tree::BinOp(f) => f.lower(t, p),
            hlr_ast::Tree::Lambda(f) => f.lower(t, p),
            hlr_ast::Tree::App(f) => f.lower(t, p),
            hlr_ast::Tree::Number(f) => f.lower(t, p),
            hlr_ast::Tree::Boolean(f) => f.lower(t, p),
            hlr_ast::Tree::Text(f) => f.lower(t, p),
            hlr_ast::Tree::Tuple(f) => f.lower(t, p),
            hlr_ast::Tree::Array(f) => f.lower(t, p),
            hlr_ast::Tree::SumType(f) => f.lower(t, p),
            hlr_ast::Tree::ProductType(f) => f.lower(t, p),
            hlr_ast::Tree::IdentifierType(f) => f.lower(t, p),
            hlr_ast::Tree::FunctionType(f) => f.lower(t, p),
            hlr_ast::Tree::ArrayType(f) => f.lower(t, p),
            hlr_ast::Tree::UnitType => make_unit_type(t, p),
        }
    }
}

/// Lowers a whole surface tree into a fresh arena, whose root is the node
/// made for the tree's own root. The arena that comes out is finished: no
/// node of it names a placeholder.
pub fn lower(t: &hlr_ast::Tree) -> (r: Result<Tree, Failure>)
    ensures
        match r {
            Ok(nt) => {
                &&& nt.wf()
                &&& lower_tree(t@, Seq::empty(), root_id).result == Ok::<NodeId, Seq<char>>(root_id)
                &&& arena_view(nt@) == lower_tree(t@, Seq::empty(), root_id).arena
                &&& finished_between(arena_view(nt@), 0, nt@.len() as int)
                &&& t@ is File ==> arena_view(nt@)[0].node is File && arena_view(nt@)[0].live
            },
            Err(f) => lower_tree(t@, Seq::empty(), root_id).result == Err::<NodeId, Seq<char>>(
                f.message@,
            ),
        },
{
    let mut nt = Tree::new_empty();
    assert(arena_view(nt@) =~= Seq::<SlotView>::empty());
    match t.lower(&mut nt, root_id) {
        Err(f) => Err(f),
        Ok(_) => {
            proof {
                lemma_lowered_tree_is_finished(t@);
                if t@ is File {
                    lemma_file_becomes_root(t@);
                }
            }
            Ok(nt)
        },
    }
}

/// A file that is lowered into a fresh arena becomes the root of the arena,
/// and the root is a file node.
pub proof fn lemma_file_becomes_root(t: TreeView)
    requires
        t is File,
        lower_tree(t, Seq::empty(), root_id).result is Ok,
    ensures
        lower_tree(t, Seq::empty(), root_id).arena.len() > 0,
        lower_tree(t, Seq::empty(), root_id).arena[0].node is File,
        lower_tree(t, Seq::empty(), root_id).arena[0].live,
{
    if let TreeView::File { statements } = t {
        let start = placed(Seq::empty(), NodeView::File { functions: Seq::empty() }, root_id);
        lemma_list_grows(statements, 0, start, root_id, Seq::empty());
    }
}

/// A `let` that binds a lambda is lowered to a function node, never to a
/// `let` node, and the function has one parameter for each parameter of the
/// lambda.
pub proof fn lemma_let_of_lambda_becomes_function(
    name: Seq<char>,
    declared: TreeView,
    parameters: Seq<Seq<char>>,
    body: TreeView,
    arena: Seq<SlotView>,
    p: NodeId,
)
    requires
        lower_tree(let_of_lambda(name, declared, parameters, body), arena, p).result is Ok,
        arena.len() < usize::MAX,
    ensures
        lower_tree(let_of_lambda(name, declared, parameters, body), arena, p).result == Ok::<
            NodeId,
            Seq<char>,
        >(arena.len() as NodeId),
        lower_tree(
            let_of_lambda(name, declared, parameters, body),
            arena,
            p,
        ).arena[arena.len() as int].node is GaleFunction,
        lower_tree(
            let_of_lambda(name, declared, parameters, body),
            arena,
            p,
        ).arena[arena.len() as int].node->GaleFunction_parameters.len() == parameters.len(),
{
    let id = arena.len() as NodeId;
    let named = placed(
        placed(arena, NodeView::Let { id: error_id, exp_type: error_id, exp: error_id }, p),
        NodeView::Identifier { name },
        id,
    );
    lemma_lowering_grows(declared, named, id);
    lemma_lowering_grows(body, lower_tree(declared, named, id).arena, id);
}

/// The binding of the name `name`, with the declared type `declared`, to the
/// lambda with the parameters `parameters` and the body `body`.
pub open spec fn let_of_lambda(
    name: Seq<char>,
    declared: TreeView,
    parameters: Seq<Seq<char>>,
    body: TreeView,
) -> TreeView {
    TreeView::Let {
        id: name,
        exp_type: Box::new(declared),
        exp: Box::new(TreeView::Lambda { parameters, body: Box::new(body) }),
    }
}

/// Lowering only adds to the arena.
pub proof fn lemma_lowering_grows(t: TreeView, arena: Seq<SlotView>, p: NodeId)
    ensures
        arena.len() <= lower_tree(t, arena, p).arena.len(),
    decreases t, 0nat,
{
    let id = arena.len() as NodeId;
    match t {
        TreeView::File { statements } => {
            lemma_list_grows(
                statements,
                0,
                placed(arena, NodeView::File { functions: Seq::empty() }, p),
                id,
                Seq::empty(),
            );
        },
        TreeView::Let { id: name, exp_type, exp } => {
            let named = placed(
                placed(arena, NodeView::Let { id: error_id, exp_type: error_id, exp: error_id }, p),
                NodeView::Identifier { name },
                id,
            );
            let declared = lower_tree(*exp_type, named, id);
            lemma_lowering_grows(*exp_type, named, id);
            match *exp {
                TreeView::Lambda { parameters, body } => {
                    lemma_lowering_grows(*body, declared.arena, id);
                },
                _ => {
                    lemma_lowering_grows(*exp, declared.arena, id);
                },
            }
        },
        TreeView::Block { statements } => {
            lemma_list_grows(
                statements,
                0,
                placed(arena, NodeView::Sequence { elements: Seq::empty() }, p),
                id,
                Seq::empty(),
            );
        },
        TreeView::BinOp { lhs, rhs, op_type } => {
            let start = placed(
                arena,
                NodeView::BinOp { lhs: error_id, rhs: error_id, op_type: lower_op_type_spec(op_type) },
                p,
            );
            lemma_lowering_grows(*lhs, start, id);
            lemma_lowering_grows(*rhs, lower_tree(*lhs, start, id).arena, id);
        },
        TreeView::App { fn_exp, param_exp } => {
            match *fn_exp {
                TreeView::Identifier { name } => {
                    let named = placed(
                        placed(arena, NodeView::Apply { fn_name: error_id, param: error_id }, p),
                        NodeView::Identifier { name },
                        id,
                    );
                    lemma_lowering_grows(*param_exp, named, id);
                },
                _ => {},
            }
        },
        TreeView::Tuple { elements } => {
            lemma_list_grows(
                elements,
                0,
                placed(arena, NodeView::Tuple { elements: Seq::empty() }, p),
                id,
                Seq::empty(),
            );
        },
        TreeView::Array { elements } => {
            lemma_list_grows(
                elements,
                0,
                placed(arena, NodeView::Array { elements: Seq::empty() }, p),
                id,
                Seq::empty(),
            );
        },
        TreeView::SumType { options } => {
            lemma_list_grows(
                options,
                0,
                placed(arena, NodeView::SumType { options: Seq::empty() }, p),
                id,
                Seq::empty(),
            );
        },
        TreeView::ProductType { elements } => {
            lemma_list_grows(
                elements,
                0,
                placed(arena, NodeView::ProductType { elements: Seq::empty() }, p),
                id,
                Seq::empty(),
            );
        },
        TreeView::FunctionType { from, to } => {
            let start = placed(arena, NodeView::FunctionType { from: error_id, to: error_id }, p);
            lemma_lowering_grows(*from, start, id);
            lemma_lowering_grows(*to, lower_tree(*from, start, id).arena, id);
        },
        TreeView::ArrayType { value_type, length } => {
            let start = placed(arena, NodeView::ArrayType { value_type: error_id, length: 0 }, p);
            lemma_lowering_grows(*value_type, start, id);
        },
        _ => {},
    }
}

proof fn lemma_list_grows(v: Seq<TreeView>, i: int, arena: Seq<SlotView>, p: NodeId, found: Seq<NodeId>)
    ensures
        arena.len() <= lower_list(v, i, arena, p, found).arena.len(),
    decreases v, v.len() - i,
{
    if 0 <= i < v.len() {
        lemma_lowering_grows(v[i], arena, p);
        let c = lower_tree(v[i], arena, p);
        if let Ok(id) = c.result {
            lemma_list_grows(v, i + 1, c.arena, p, found.push(id));
        }
    }
}

/// The identities that a node names as its children.
pub open spec fn children_named(n: NodeView) -> Seq<NodeId> {
    match n {
        NodeView::File { functions } => functions,
        NodeView::Let { id, exp_type, exp } => seq![id, exp_type, exp],
        NodeView::Sequence { elements } => elements,
        NodeView::BinOp { lhs, rhs, .. } => seq![lhs, rhs],
        NodeView::Tuple { elements } => elements,
        NodeView::Array { elements } => elements,
        NodeView::GaleFunction { name, parameters, implementation } => seq![name, implementation]
            + parameters,
        NodeView::Apply { fn_name, param } => seq![fn_name, param],
        NodeView::SumType { options } => options,
        NodeView::ProductType { elements } => elements,
        NodeView::FunctionType { from, to } => seq![from, to],
        NodeView::ArrayType { value_type, .. } => seq![value_type],
        _ => Seq::empty(),
    }
}

/// `c` is a live node that was created after `k` and under `k`.
pub open spec fn linked(arena: Seq<SlotView>, k: int, c: NodeId) -> bool {
    k < c < arena.len() && arena[c as int].parent == k && arena[c as int].live
}

/// Every child that the node `k` names is a live node created under it. No
/// placeholder is among them.
pub open spec fn well_linked(arena: Seq<SlotView>, k: int) -> bool {
    forall|j: int|
        0 <= j < children_named(arena[k].node).len() ==> linked(
            arena,
            k,
            #[trigger] children_named(arena[k].node)[j],
        )
}

/// The node `k` is live and well linked.
pub open spec fn node_finished(arena: Seq<SlotView>, k: int) -> bool {
    arena[k].live && well_linked(arena, k)
}

/// The nodes from `from` up to `to` are finished.
pub open spec fn finished_between(arena: Seq<SlotView>, from: int, to: int) -> bool {
    forall|k: int| from <= k < to ==> #[trigger] node_finished(arena, k)
}

/// A finished tree holds no placeholder: lowering a tree into a fresh arena
/// leaves every node live, and every child that a node names is a node that
/// was created under it.
pub proof fn lemma_lowered_tree_is_finished(t: TreeView)
    requires
        lower_tree(t, Seq::empty(), root_id).result is Ok,
        lower_tree(t, Seq::empty(), root_id).arena.len() <= usize::MAX,
    ensures
        finished_between(
            lower_tree(t, Seq::empty(), root_id).arena,
            0,
            lower_tree(t, Seq::empty(), root_id).arena.len() as int,
        ),
        forall|k: int, j: int|
            0 <= k < lower_tree(t, Seq::empty(), root_id).arena.len() && 0 <= j < children_named(
                lower_tree(t, Seq::empty(), root_id).arena[k].node,
            ).len() ==> #[trigger] children_named(
                lower_tree(t, Seq::empty(), root_id).arena[k].node,
            )[j] != error_id,
{
    let r = lower_tree(t, Seq::empty(), root_id);
    lemma_lowering_finishes(t, Seq::empty(), root_id);
    assert forall|k: int, j: int|
        0 <= k < r.arena.len() && 0 <= j < children_named(r.arena[k].node).len() implies #[trigger] children_named(
        r.arena[k].node,
    )[j] != error_id by {
        assert(node_finished(r.arena, k));
    }
}

/// What lowering a tree that succeeds leaves behind: the node made for the
/// tree has the identity that was free next and lies under `p`, what was in
/// the arena is untouched, and what was added is finished.
pub open spec fn lowered_well(arena: Seq<SlotView>, p: NodeId, r: Lowered) -> bool {
    &&& r.result == Ok::<NodeId, Seq<char>>(arena.len() as NodeId)
    &&& arena.len() < r.arena.len()
    &&& forall|k: int| 0 <= k < arena.len() ==> #[trigger] r.arena[k] == arena[k]
    &&& r.arena[arena.len() as int].parent == p
    &&& finished_between(r.arena, arena.len() as int, r.arena.len() as int)
}

/// Lowering a tree that succeeds leaves the arena as `lowered_well` says.
pub proof fn lemma_lowering_finishes(t: TreeView, arena: Seq<SlotView>, p: NodeId)
    requires
        lower_tree(t, arena, p).result is Ok,
        lower_tree(t, arena, p).arena.len() <= usize::MAX,
    ensures
        lowered_well(arena, p, lower_tree(t, arena, p)),
    decreases t, 1nat,
{
    let n = arena.len() as int;
    let r = lower_tree(t, arena, p);
    match t {
        TreeView::File { statements } => {
            let start = placed(arena, NodeView::File { functions: Seq::empty() }, p);
            lemma_listed_finishes(
                statements,
                arena,
                start,
                p,
                |ids: Seq<NodeId>| NodeView::File { functions: ids },
            );
        },
        TreeView::Block { statements } => {
            let start = placed(arena, NodeView::Sequence { elements: Seq::empty() }, p);
            lemma_listed_finishes(
                statements,
                arena,
                start,
                p,
                |ids: Seq<NodeId>| NodeView::Sequence { elements: ids },
            );
        },
        TreeView::Tuple { elements } => {
            let start = placed(arena, NodeView::Tuple { elements: Seq::empty() }, p);
            lemma_listed_finishes(
                elements,
                arena,
                start,
                p,
                |ids: Seq<NodeId>| NodeView::Tuple { elements: ids },
            );
        },
        TreeView::Array { elements } => {
            let start = placed(arena, NodeView::Array { elements: Seq::empty() }, p);
            lemma_listed_finishes(
                elements,
                arena,
                start,
                p,
                |ids: Seq<NodeId>| NodeView::Array { elements: ids },
            );
        },
        TreeView::SumType { options } => {
            let start = placed(arena, NodeView::SumType { options: Seq::empty() }, p);
            lemma_listed_finishes(
                options,
                arena,
                start,
                p,
                |ids: Seq<NodeId>| NodeView::SumType { options: ids },
            );
        },
        TreeView::ProductType { elements } => {
            let start = placed(arena, NodeView::ProductType { elements: Seq::empty() }, p);
            lemma_listed_finishes(
                elements,
                arena,
                start,
                p,
                |ids: Seq<NodeId>| NodeView::ProductType { elements: ids },
            );
        },
        TreeView::Let { .. } => {
            lemma_let_finishes(t, arena, p);
        },
        TreeView::BinOp { .. } => {
            lemma_binop_finishes(t, arena, p);
        },
        TreeView::App { .. } => {
            lemma_app_finishes(t, arena, p);
        },
        TreeView::FunctionType { .. } => {
            lemma_function_type_finishes(t, arena, p);
        },
        TreeView::ArrayType { .. } => {
            lemma_array_type_finishes(t, arena, p);
        },
        TreeView::Lambda { .. } => {},
        _ => {
            assert(node_finished(r.arena, n));
        },
    }
}

proof fn lemma_let_finishes(t: TreeView, arena: Seq<SlotView>, p: NodeId)
    requires
        t is Let,
        lower_tree(t, arena, p).result is Ok,
        lower_tree(t, arena, p).arena.len() <= usize::MAX,
    ensures
        lowered_well(arena, p, lower_tree(t, arena, p)),
    decreases t, 0nat,
{
    let n = arena.len() as int;
    let id = arena.len() as NodeId;
    let next = (arena.len() + 1) as NodeId;
    if let TreeView::Let { id: name, exp_type, exp } = t {
        let first = placed(arena, NodeView::Let { id: error_id, exp_type: error_id, exp: error_id }, p);
        let named = placed(first, NodeView::Identifier { name }, id);
        let declared = lower_tree(*exp_type, named, id);
        lemma_lowering_grows(*exp_type, named, id);
        assert(node_finished(named, n + 1));
        match *exp {
            TreeView::Lambda { parameters, body } => {
                let lowered_body = lower_tree(*body, declared.arena, id);
                lemma_lowering_grows(*body, declared.arena, id);
                lemma_lowering_finishes(*exp_type, named, id);
                lemma_lowering_finishes(*body, declared.arena, id);
                let slots = parameter_slots(parameters, id);
                let extended = lowered_body.arena + slots;
                let ids = ids_from(lowered_body.arena.len(), parameters.len());
                let node = NodeView::GaleFunction {
                    name: next,
                    parameters: ids,
                    implementation: declared.arena.len() as NodeId,
                };
                lemma_carry(named, declared.arena, n + 1, n + 2);
                lemma_carry(declared.arena, lowered_body.arena, n + 1, declared.arena.len() as int);
                lemma_carry(lowered_body.arena, extended, n + 1, lowered_body.arena.len() as int);
                assert forall|k: int| lowered_body.arena.len() <= k < extended.len() implies #[trigger] node_finished(
                    extended,
                    k,
                ) by {
                    assert(extended[k] == slots[k - lowered_body.arena.len()]);
                }
                assert forall|j: int| 0 <= j < children_named(node).len() implies linked(
                    extended,
                    n,
                    #[trigger] children_named(node)[j],
                ) by {
                    assert(node_finished(extended, n + 1));
                    assert(node_finished(extended, declared.arena.len() as int));
                    if j >= 2 {
                        let k = lowered_body.arena.len() + (j - 2);
                        assert(children_named(node)[j] == ids[j - 2]);
                        assert(extended[k] == slots[j - 2]);
                    }
                }
                lemma_fill_finishes(extended, id, node);
            },
            _ => {
                let initializer = lower_tree(*exp, declared.arena, id);
                lemma_lowering_grows(*exp, declared.arena, id);
                lemma_lowering_finishes(*exp_type, named, id);
                lemma_lowering_finishes(*exp, declared.arena, id);
                let node = NodeView::Let {
                    id: next,
                    exp_type: (n + 2) as NodeId,
                    exp: declared.arena.len() as NodeId,
                };
                lemma_carry(named, declared.arena, n + 1, n + 2);
                lemma_carry(declared.arena, initializer.arena, n + 1, declared.arena.len() as int);
                assert forall|j: int| 0 <= j < children_named(node).len() implies linked(
                    initializer.arena,
                    n,
                    #[trigger] children_named(node)[j],
                ) by {
                    assert(node_finished(initializer.arena, n + 1));
                    assert(node_finished(initializer.arena, n + 2));
                    assert(node_finished(initializer.arena, declared.arena.len() as int));
                }
                lemma_fill_finishes(initializer.arena, id, node);
            },
        }
    }
}

proof fn lemma_binop_finishes(t: TreeView, arena: Seq<SlotView>, p: NodeId)
    requires
        t is BinOp,
        lower_tree(t, arena, p).result is Ok,
        lower_tree(t, arena, p).arena.len() <= usize::MAX,
    ensures
        lowered_well(arena, p, lower_tree(t, arena, p)),
    decreases t, 0nat,
{
    let n = arena.len() as int;
    let id = arena.len() as NodeId;
    let next = (arena.len() + 1) as NodeId;
    if let TreeView::BinOp { lhs, rhs, op_type } = t {
        let op_type = lower_op_type_spec(op_type);
        let start = placed(arena, NodeView::BinOp { lhs: error_id, rhs: error_id, op_type }, p);
        let left = lower_tree(*lhs, start, id);
        let right = lower_tree(*rhs, left.arena, id);
        lemma_lowering_grows(*lhs, start, id);
        lemma_lowering_grows(*rhs, left.arena, id);
        lemma_lowering_finishes(*lhs, start, id);
        lemma_lowering_finishes(*rhs, left.arena, id);
        lemma_carry(left.arena, right.arena, n + 1, left.arena.len() as int);
        let node = NodeView::BinOp { lhs: next, rhs: left.arena.len() as NodeId, op_type };
        assert forall|j: int| 0 <= j < children_named(node).len() implies linked(
            right.arena,
            n,
            #[trigger] children_named(node)[j],
        ) by {
            assert(node_finished(right.arena, n + 1));
            assert(node_finished(right.arena, left.arena.len() as int));
        }
        lemma_fill_finishes(right.arena, id, node);
    }
}

proof fn lemma_app_finishes(t: TreeView, arena: Seq<SlotView>, p: NodeId)
    requires
        t is App,
        lower_tree(t, arena, p).result is Ok,
        lower_tree(t, arena, p).arena.len() <= usize::MAX,
    ensures
        lowered_well(arena, p, lower_tree(t, arena, p)),
    decreases t, 0nat,
{
    let n = arena.len() as int;
    let id = arena.len() as NodeId;
    let next = (arena.len() + 1) as NodeId;
    if let TreeView::App { fn_exp, param_exp } = t {
        if let TreeView::Identifier { name } = *fn_exp {
            let first = placed(arena, NodeView::Apply { fn_name: error_id, param: error_id }, p);
            let named = placed(first, NodeView::Identifier { name }, id);
            let argument = lower_tree(*param_exp, named, id);
            lemma_lowering_grows(*param_exp, named, id);
            lemma_lowering_finishes(*param_exp, named, id);
            assert(node_finished(named, n + 1));
            lemma_carry(named, argument.arena, n + 1, n + 2);
            let node = NodeView::Apply { fn_name: next, param: (n + 2) as NodeId };
            assert forall|j: int| 0 <= j < children_named(node).len() implies linked(
                argument.arena,
                n,
                #[trigger] children_named(node)[j],
            ) by {
                assert(node_finished(argument.arena, n + 1));
                assert(node_finished(argument.arena, n + 2));
            }
            lemma_fill_finishes(argument.arena, id, node);
        }
    }
}

proof fn lemma_function_type_finishes(t: TreeView, arena: Seq<SlotView>, p: NodeId)
    requires
        t is FunctionType,
        lower_tree(t, arena, p).result is Ok,
        lower_tree(t, arena, p).arena.len() <= usize::MAX,
    ensures
        lowered_well(arena, p, lower_tree(t, arena, p)),
    decreases t, 0nat,
{
    let n = arena.len() as int;
    let id = arena.len() as NodeId;
    let next = (arena.len() + 1) as NodeId;
    if let TreeView::FunctionType { from, to } = t {
        let start = placed(arena, NodeView::FunctionType { from: error_id, to: error_id }, p);
        let lowered_from = lower_tree(*from, start, id);
        let lowered_to = lower_tree(*to, lowered_from.arena, id);
        lemma_lowering_grows(*from, start, id);
        lemma_lowering_grows(*to, lowered_from.arena, id);
        lemma_lowering_finishes(*from, start, id);
        lemma_lowering_finishes(*to, lowered_from.arena, id);
        lemma_carry(lowered_from.arena, lowered_to.arena, n + 1, lowered_from.arena.len() as int);
        let node = NodeView::FunctionType { from: next, to: lowered_from.arena.len() as NodeId };
        assert forall|j: int| 0 <= j < children_named(node).len() implies linked(
            lowered_to.arena,
            n,
            #[trigger] children_named(node)[j],
        ) by {
            assert(node_finished(lowered_to.arena, n + 1));
            assert(node_finished(lowered_to.arena, lowered_from.arena.len() as int));
        }
        lemma_fill_finishes(lowered_to.arena, id, node);
    }
}

proof fn lemma_array_type_finishes(t: TreeView, arena: Seq<SlotView>, p: NodeId)
    requires
        t is ArrayType,
        lower_tree(t, arena, p).result is Ok,
        lower_tree(t, arena, p).arena.len() <= usize::MAX,
    ensures
        lowered_well(arena, p, lower_tree(t, arena, p)),
    decreases t, 0nat,
{
    let n = arena.len() as int;
    let id = arena.len() as NodeId;
    let next = (arena.len() + 1) as NodeId;
    if let TreeView::ArrayType { value_type, length } = t {
        let start = placed(arena, NodeView::ArrayType { value_type: error_id, length: 0 }, p);
        let value = lower_tree(*value_type, start, id);
        lemma_lowering_grows(*value_type, start, id);
        lemma_lowering_finishes(*value_type, start, id);
        let node = NodeView::ArrayType { value_type: next, length };
        assert forall|j: int| 0 <= j < children_named(node).len() implies linked(
            value.arena,
            n,
            #[trigger] children_named(node)[j],
        ) by {
            assert(node_finished(value.arena, n + 1));
        }
        lemma_fill_finishes(value.arena, id, node);
    }
}

/// Nodes that are finished stay so when the arena grows and nothing from
/// them on changes.
proof fn lemma_carry(a: Seq<SlotView>, b: Seq<SlotView>, from: int, to: int)
    requires
        0 <= from,
        to <= a.len() <= b.len(),
        finished_between(a, from, to),
        forall|k: int| from <= k < a.len() ==> #[trigger] b[k] == a[k],
    ensures
        finished_between(b, from, to),
{
    assert forall|k: int| from <= k < to implies #[trigger] node_finished(b, k) by {
        assert(node_finished(a, k));
        assert(b[k] == a[k]);
        assert forall|j: int| 0 <= j < children_named(b[k].node).len() implies linked(
            b,
            k,
            #[trigger] children_named(b[k].node)[j],
        ) by {
            let c = children_named(a[k].node)[j];
            assert(linked(a, k, c));
            assert(b[c as int] == a[c as int]);
        }
    }
}

/// Filling in a node whose children are all there finishes the nodes from it
/// on.
proof fn lemma_fill_finishes(a: Seq<SlotView>, id: NodeId, node: NodeView)
    requires
        id < a.len(),
        finished_between(a, id + 1, a.len() as int),
        forall|j: int|
            0 <= j < children_named(node).len() ==> linked(
                a,
                id as int,
                #[trigger] children_named(node)[j],
            ),
    ensures
        finished_between(filled(a, id, node), id as int, a.len() as int),
        filled(a, id, node).len() == a.len(),
        filled(a, id, node)[id as int].parent == a[id as int].parent,
        forall|k: int| 0 <= k < a.len() && k != id ==> #[trigger] filled(a, id, node)[k] == a[k],
{
    let b = filled(a, id, node);
    assert forall|k: int| id <= k < a.len() implies #[trigger] node_finished(b, k) by {
        if k == id {
            assert forall|j: int| 0 <= j < children_named(b[k].node).len() implies linked(
                b,
                k,
                #[trigger] children_named(b[k].node)[j],
            ) by {
                assert(linked(a, id as int, children_named(node)[j]));
            }
        } else {
            assert(node_finished(a, k));
            assert(b[k] == a[k]);
            assert forall|j: int| 0 <= j < children_named(b[k].node).len() implies linked(
                b,
                k,
                #[trigger] children_named(b[k].node)[j],
            ) by {
                assert(linked(a, k, children_named(a[k].node)[j]));
            }
        }
    }
}

/// What lowering a list that succeeds leaves behind: what was in the arena
/// is untouched, what was added is finished, and the identities found are
/// those of the members, which all lie under `p`.
pub open spec fn listed_well(arena: Seq<SlotView>, p: NodeId, found: Seq<NodeId>, r: LoweredList) -> bool {
    &&& arena.len() <= r.arena.len()
    &&& forall|k: int| 0 <= k < arena.len() ==> #[trigger] r.arena[k] == arena[k]
    &&& finished_between(r.arena, arena.len() as int, r.arena.len() as int)
    &&& r.result is Ok
    &&& r.result->Ok_0.len() >= found.len()
    &&& forall|j: int| 0 <= j < found.len() ==> #[trigger] r.result->Ok_0[j] == found[j]
    &&& forall|j: int|
        found.len() <= j < r.result->Ok_0.len() ==> linked_under(
            arena,
            r.arena,
            p,
            #[trigger] r.result->Ok_0[j],
        )
}

/// `c` is a live node of `after` that was created under `p` and is not in
/// `before`.
pub open spec fn linked_under(before: Seq<SlotView>, after: Seq<SlotView>, p: NodeId, c: NodeId) -> bool {
    before.len() <= c < after.len() && after[c as int].parent == p && after[c as int].live
}

proof fn lemma_list_finishes(v: Seq<TreeView>, i: int, arena: Seq<SlotView>, p: NodeId, found: Seq<NodeId>)
    requires
        lower_list(v, i, arena, p, found).result is Ok,
        lower_list(v, i, arena, p, found).arena.len() <= usize::MAX,
    ensures
        listed_well(arena, p, found, lower_list(v, i, arena, p, found)),
    decreases v, v.len() - i,
{
    if 0 <= i < v.len() {
        let c = lower_tree(v[i], arena, p);
        let id = c.result->Ok_0;
        let rest = lower_list(v, i + 1, c.arena, p, found.push(id));
        let ids = rest.result->Ok_0;
        lemma_list_grows(v, i + 1, c.arena, p, found.push(id));
        lemma_lowering_finishes(v[i], arena, p);
        lemma_list_finishes(v, i + 1, c.arena, p, found.push(id));
        lemma_carry(c.arena, rest.arena, arena.len() as int, c.arena.len() as int);
        assert forall|k: int| arena.len() <= k < rest.arena.len() implies #[trigger] node_finished(
            rest.arena,
            k,
        ) by {}
        assert forall|j: int| 0 <= j < found.len() implies #[trigger] ids[j] == found[j] by {
            assert(ids[j] == found.push(id)[j]);
        }
        assert forall|j: int| found.len() <= j < ids.len() implies linked_under(
            arena,
            rest.arena,
            p,
            #[trigger] ids[j],
        ) by {
            if j == found.len() {
                assert(ids[j] == found.push(id)[j]);
                assert(node_finished(c.arena, arena.len() as int));
                assert(rest.arena[id as int] == c.arena[id as int]);
            } else {
                assert(linked_under(c.arena, rest.arena, p, ids[j]));
            }
        }
    }
}

/// Lowering a node that lists its members, where it succeeds, leaves the
/// arena as `lowered_well` says.
proof fn lemma_listed_finishes(
    members: Seq<TreeView>,
    arena: Seq<SlotView>,
    start: Seq<SlotView>,
    p: NodeId,
    node: spec_fn(Seq<NodeId>) -> NodeView,
)
    requires
        start.len() == arena.len() + 1,
        forall|k: int| 0 <= k < arena.len() ==> #[trigger] start[k] == arena[k],
        start[arena.len() as int].parent == p,
        start[arena.len() as int].live,
        forall|ids: Seq<NodeId>| #[trigger] children_named(node(ids)) == ids,
        lower_list(members, 0, start, arena.len() as NodeId, Seq::empty()).result is Ok,
        lower_list(members, 0, start, arena.len() as NodeId, Seq::empty()).arena.len() <= usize::MAX,
    ensures
        lowered_well(
            arena,
            p,
            listed(
                lower_list(members, 0, start, arena.len() as NodeId, Seq::empty()),
                arena.len() as NodeId,
                node,
            ),
        ),
    decreases members, members.len() + 1,
{
    let n = arena.len() as int;
    let id = arena.len() as NodeId;
    let r = lower_list(members, 0, start, id, Seq::empty());
    lemma_list_finishes(members, 0, start, id, Seq::empty());
    let ids = r.result->Ok_0;
    assert(children_named(node(ids)) == ids);
    assert forall|j: int| 0 <= j < children_named(node(ids)).len() implies linked(
        r.arena,
        n,
        #[trigger] children_named(node(ids))[j],
    ) by {
        assert(linked_under(start, r.arena, id, ids[j]));
    }
    lemma_fill_finishes(r.arena, id, node(ids));
}

} // verus!
