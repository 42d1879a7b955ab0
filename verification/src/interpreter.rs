//! The interpreter. It walks the arena tree and computes the value of a
//! program. A function is called by value in an environment of its own, which
//! holds its parameters and nothing else.
//!
//! The interpreter itself touches nothing outside the program: what the
//! program prints is collected and handed back, and a file the program reads
//! has to be supplied beforehand. Evaluation is cut off at a given depth.
use crate::collections::name_map::NameMap;
use crate::data::mlr_ast::{
    arena_view, names_view, node_at, root_id, Apply, Array, BinOp, BinOpType, File, Function,
    GaleFunction, Identifier, Let, Name, NativeFunction, NativeImplementation, Node, NodeId,
    NodeView, Sequence, SlotView, Tree, Tuple,
};
use crate::data::values::{display_text, value_debug_text, values_view, Value, ValueView};
use vstd::prelude::*;
use vstd::string::*;

verus! {

/// Why a run failed.
pub struct Failure {
    pub message: String,
    /// The path of the file that the program asked for and that was not
    /// supplied, where that is what went wrong.
    pub wanted: Option<String>,
}

/// A failure as a mathematical value.
pub struct FailureView {
    pub message: Seq<char>,
    pub wanted: Option<Seq<char>>,
}

impl View for Failure {
    type V = FailureView;

    open spec fn view(&self) -> FailureView {
        FailureView {
            message: self.message@,
            wanted: match self.wanted {
                Some(path) => Some(path@),
                None => None,
            },
        }
    }
}

impl Failure {
    pub fn new(m: &str) -> (f: Failure)
        ensures
            f@ == because(m@),
    {
        Failure { message: String::from_str(m), wanted: None }
    }

    pub fn from(m: String) -> (f: Failure)
        ensures
            f@ == because(m@),
    {
        Failure { message: m, wanted: None }
    }
}

/// The evaluation depth that `interpret` allows.
pub const DEFAULT_DEPTH: usize = 1000;

/// The program being run: its tree, its functions by name, and the files it
/// may read, by path.
pub struct Program {
    ast: Tree,
    functions: NameMap<Function>,
    files: NameMap<String>,
}

/// A program as a mathematical value.
pub struct ProgramView {
    pub arena: Seq<SlotView>,
    pub functions: Map<Seq<char>, NodeView>,
    pub files: Map<Seq<char>, Seq<char>>,
}

impl View for Program {
    type V = ProgramView;

    closed spec fn view(&self) -> ProgramView {
        ProgramView {
            arena: arena_view(self.ast@),
            functions: self.functions@.map_values(|f: Function| f@),
            files: self.files@.map_values(|s: String| s@),
        }
    }
}

impl Program {
    /// A program over `ast` that knows no function and can read no file.
    pub fn new(ast: Tree) -> (p: Program)
        ensures
            p@ == (ProgramView {
                arena: arena_view(ast@),
                functions: Map::empty(),
                files: Map::empty(),
            }),
    {
        let p = Program { ast: ast, functions: NameMap::new(), files: NameMap::new() };
        assert(p@.functions =~= Map::empty());
        assert(p@.files =~= Map::empty());
        p
    }

    /// A program over `ast` that may read the files `files`.
    pub fn with_files(ast: Tree, files: NameMap<String>) -> (p: Program)
        ensures
            p@ == (ProgramView {
                arena: arena_view(ast@),
                functions: Map::empty(),
                files: files@.map_values(|s: String| s@),
            }),
    {
        let p = Program { ast: ast, functions: NameMap::new(), files: files };
        assert(p@.functions =~= Map::empty());
        p
    }

    /// Makes the function `func` known under `name`.
    pub fn extend(&mut self, name: Name, func: Function)
        ensures
            final(self)@ == (ProgramView {
                functions: old(self)@.functions.insert(name.text@, func@),
                ..old(self)@
            }),
    {
        self.functions.insert(name.text, func);
        assert(self@.functions =~= old(self)@.functions.insert(name.text@, func@));
    }

    /// The function known under `name`, if there is one.
    pub fn lookup(&self, name: &Name) -> (r: Option<&Function>)
        ensures
            match r {
                Some(f) => self@.functions.contains_key(name.text@) && self@.functions[name.text@] == f@,
                None => !self@.functions.contains_key(name.text@),
            },
    {
        self.functions.get(&name.text)
    }

    /// The name that the identifier node `name` holds.
    pub fn get_name(&self, name: NodeId) -> (r: Option<&Name>)
        ensures
            match r {
                Some(n) => name_at(self@.arena, name) == Some(n.text@),
                None => name_at(self@.arena, name).is_none(),
            },
    {
        match self.get_node(name) {
            Some(Node::Identifier(id)) => Some(&id.name),
            _ => None,
        }
    }

    /// The node `n`, unless it is a tombstone or was never created.
    pub fn get_node(&self, n: NodeId) -> (r: Option<&Node>)
        ensures
            match r {
                Some(node) => node_at(self@.arena, n) == Some(node@),
                None => node_at(self@.arena, n).is_none(),
            },
    {
        if n < self.ast.len() {
            self.ast.get_node_value(n)
        } else {
            None
        }
    }

    /// The contents of the file at `path`, if it was supplied.
    pub fn get_file(&self, path: &String) -> (r: Option<&String>)
        ensures
            match r {
                Some(text) => self@.files.contains_key(path@) && self@.files[path@] == text@,
                None => !self@.files.contains_key(path@),
            },
    {
        self.files.get(path)
    }
}

/// The variables in sight, by name.
pub struct Environment {
    variables: NameMap<Value>,
}

impl View for Environment {
    type V = Map<Seq<char>, ValueView>;

    closed spec fn view(&self) -> Map<Seq<char>, ValueView> {
        self.variables@.map_values(|v: Value| v@)
    }
}

impl Environment {
    /// An environment without variables.
    pub fn new() -> (env: Environment)
        ensures
            env@ == Map::<Seq<char>, ValueView>::empty(),
    {
        let env = Environment { variables: NameMap::new() };
        assert(env@ =~= Map::empty());
        env
    }

    /// Binds `name` to `value`, in place of what it was bound to.
    pub fn extend(&mut self, name: Name, value: Value)
        ensures
            final(self)@ == old(self)@.insert(name.text@, value@),
    {
        self.variables.insert(name.text, value);
        assert(self@ =~= old(self)@.insert(name.text@, value@));
    }

    /// The value of the variable `name`, if it is bound.
    pub fn lookup(&self, name: &Name) -> (r: Option<&Value>)
        ensures
            match r {
                Some(v) => self@.contains_key(name.text@) && self@[name.text@] == v@,
                None => !self@.contains_key(name.text@),
            },
    {
        self.variables.get(&name.text)
    }
}

/// What changes while a program runs: the variables in sight and the text
/// printed so far.
pub struct State {
    pub env: Map<Seq<char>, ValueView>,
    pub output: Seq<char>,
}

/// How evaluating a node ends: with its value or with a failure; and with
/// the state it leaves behind.
pub struct Evaluated {
    pub result: Result<ValueView, FailureView>,
    pub state: State,
}

/// A failure with the message `message` that asks for no file.
pub open spec fn because(message: Seq<char>) -> FailureView {
    FailureView { message, wanted: None }
}

/// Evaluation fails with `message`.
pub open spec fn fails(message: Seq<char>, state: State) -> Evaluated {
    Evaluated { result: Err(because(message)), state }
}

/// Evaluation yields the value `v`.
pub open spec fn yields(v: ValueView, state: State) -> Evaluated {
    Evaluated { result: Ok(v), state }
}

/// The number `value` as a value.
pub open spec fn number(value: i64) -> ValueView {
    ValueView::Number { value }
}

/// The name held by the identifier node `id`, if it is one.
pub open spec fn name_at(arena: Seq<SlotView>, id: NodeId) -> Option<Seq<char>> {
    match node_at(arena, id) {
        Some(NodeView::Identifier { name }) => Some(name),
        _ => None,
    }
}

/// The names held by the identifier nodes `ids`, if all of them are.
pub open spec fn names_at(arena: Seq<SlotView>, ids: Seq<NodeId>) -> Option<Seq<Seq<char>>> {
    if forall|k: int| 0 <= k < ids.len() ==> (#[trigger] name_at(arena, ids[k])).is_some() {
        Some(Seq::new(ids.len(), |k: int| name_at(arena, ids[k]).unwrap()))
    } else {
        None
    }
}

/// The value of the node `id`. Every node visited costs one level of depth.
pub open spec fn eval_id(p: ProgramView, id: NodeId, st: State, fuel: nat) -> Evaluated
    decreases fuel, 0nat, 0nat,
{
    if fuel == 0 {
        fails("Evaluation ran too deep"@, st)
    } else {
        match node_at(p.arena, id) {
            None => fails("Internal invariant violated: expected node to exist"@, st),
            Some(node) => eval_node(p, node, st, (fuel - 1) as nat),
        }
    }
}

/// The value of a node, by its kind. Literals are their own values; an
/// identifier has the value it is bound to; a tuple and an array collect the
/// values of their members; functions and types have no value.
pub open spec fn eval_node(p: ProgramView, node: NodeView, st: State, fuel: nat) -> Evaluated
    decreases fuel, 2nat, 0nat,
{
    match node {
        NodeView::Let { id, exp, .. } => eval_let(p, id, exp, st, fuel),
        NodeView::Sequence { elements } => eval_sequence(p, elements, 0, st, fuel),
        NodeView::Identifier { name } => if st.env.contains_key(name) {
            yields(st.env[name], st)
        } else {
            fails("Could not find identifier "@ + name, st)
        },
        NodeView::BinOp { lhs, rhs, op_type } => eval_binop(p, lhs, rhs, op_type, st, fuel),
        NodeView::Number { value } => yields(number(value), st),
        NodeView::Text { text } => yields(ValueView::Text { text }, st),
        NodeView::Boolean { value } => yields(ValueView::Boolean { value }, st),
        NodeView::Apply { fn_name, param } => eval_apply(p, fn_name, param, st, fuel),
        NodeView::Tuple { elements } => {
            let members = eval_list(p, elements, 0, st, fuel, Seq::empty());
            match members.result {
                Err(f) => Evaluated { result: Err(f), state: members.state },
                Ok(values) => yields(ValueView::Tuple { elements: values }, members.state),
            }
        },
        NodeView::Array { elements } => {
            let members = eval_list(p, elements, 0, st, fuel, Seq::empty());
            match members.result {
                Err(f) => Evaluated { result: Err(f), state: members.state },
                Ok(values) => yields(ValueView::Array { elements: values }, members.state),
            }
        },
        NodeView::File { .. } => eval_file(p, st, fuel),
        _ => fails("Cannot interpret this node"@, st),
    }
}

/// A binding evaluates its initializer and binds the value to its name. It
/// has no value of its own.
pub open spec fn eval_let(p: ProgramView, id: NodeId, exp: NodeId, st: State, fuel: nat) -> Evaluated
    decreases fuel, 1nat, 0nat,
{
    let e = eval_id(p, exp, st, fuel);
    match e.result {
        Err(_) => e,
        Ok(v) => match name_at(p.arena, id) {
            None => fails(
                "Internal invariant violated: expected let to bind an identifier"@,
                e.state,
            ),
            Some(name) => yields(
                ValueView::Void,
                State { env: e.state.env.insert(name, v), output: e.state.output },
            ),
        },
    }
}

/// The statements of a block from the `i`-th on: the value of the last one
/// is the value of the block.
pub open spec fn eval_sequence(p: ProgramView, ids: Seq<NodeId>, i: int, st: State, fuel: nat) -> Evaluated
    decreases fuel, 1nat, ids.len() - i,
{
    if i < 0 || i >= ids.len() {
        fails("Expected seq to produce value"@, st)
    } else if i == ids.len() - 1 {
        eval_id(p, ids[i], st, fuel)
    } else {
        let e = eval_id(p, ids[i], st, fuel);
        if e.result is Err {
            e
        } else {
            eval_sequence(p, ids, i + 1, e.state, fuel)
        }
    }
}

/// How evaluating a list of nodes ends.
pub struct EvaluatedList {
    pub result: Result<Seq<ValueView>, FailureView>,
    pub state: State,
}

/// The values of the nodes from the `i`-th on, in order; `found` holds the
/// values of the nodes before.
pub open spec fn eval_list(
    p: ProgramView,
    ids: Seq<NodeId>,
    i: int,
    st: State,
    fuel: nat,
    found: Seq<ValueView>,
) -> EvaluatedList
    decreases fuel, 1nat, ids.len() - i,
{
    if i < 0 || i >= ids.len() {
        EvaluatedList { result: Ok(found), state: st }
    } else {
        let e = eval_id(p, ids[i], st, fuel);
        match e.result {
            Err(f) => EvaluatedList { result: Err(f), state: e.state },
            Ok(v) => eval_list(p, ids, i + 1, e.state, fuel, found.push(v)),
        }
    }
}

/// What is said where an operator is given values it cannot work on.
pub open spec fn invalid_operands_text(lhs: ValueView, rhs: ValueView) -> Seq<char> {
    "Invalid binop nodes: "@ + value_debug_text(lhs) + ", "@ + value_debug_text(rhs)
}

/// What an operator makes of two values. Sums and products stay within 64
/// bits, and an index lies within the array.
pub open spec fn apply_operator(op: BinOpType, lhs: ValueView, rhs: ValueView) -> Result<
    ValueView,
    FailureView,
> {
    match (lhs, rhs, op) {
        (ValueView::Number { value: a }, ValueView::Number { value: b }, BinOpType::Mult) => if i64::MIN
            <= a * b <= i64::MAX {
            Ok(number((a * b) as i64))
        } else {
            Err(because("Arithmetic overflow"@))
        },
        (ValueView::Number { value: a }, ValueView::Number { value: b }, BinOpType::Plus) => if i64::MIN
            <= a + b <= i64::MAX {
            Ok(number((a + b) as i64))
        } else {
            Err(because("Arithmetic overflow"@))
        },
        (ValueView::Array { elements }, ValueView::Number { value: index }, BinOpType::ArrIndex) => if 0
            <= index < elements.len() {
            Ok(elements[index as int])
        } else {
            Err(because("Internal invariant violated: array index out of bounds"@))
        },
        _ => Err(because(invalid_operands_text(lhs, rhs))),
    }
}

/// An operation evaluates its left side, then its right side, and applies
/// its operator.
pub open spec fn eval_binop(
    p: ProgramView,
    lhs: NodeId,
    rhs: NodeId,
    op_type: BinOpType,
    st: State,
    fuel: nat,
) -> Evaluated
    decreases fuel, 1nat, 0nat,
{
    let left = eval_id(p, lhs, st, fuel);
    match left.result {
        Err(_) => left,
        Ok(a) => {
            let right = eval_id(p, rhs, left.state, fuel);
            match right.result {
                Err(_) => right,
                Ok(b) => Evaluated { result: apply_operator(op_type, a, b), state: right.state },
            }
        },
    }
}

/// The names of the parameters of a function: a native function carries
/// them, a function of the language names identifier nodes.
pub open spec fn parameter_names(arena: Seq<SlotView>, f: NodeView) -> Option<Seq<Seq<char>>> {
    match f {
        NodeView::NativeFunction { parameters, .. } => Some(parameters),
        NodeView::GaleFunction { parameters, .. } => names_at(arena, parameters),
        _ => None,
    }
}

/// The environment with each name bound to the value at its position.
pub open spec fn bind_all(names: Seq<Seq<char>>, values: Seq<ValueView>, i: int) -> Map<
    Seq<char>,
    ValueView,
>
    decreases i,
{
    if i <= 0 {
        Map::empty()
    } else {
        bind_all(names, values, i - 1).insert(names[i - 1], values[i - 1])
    }
}

/// The environment a function starts in when it is called with `argument`.
/// A tuple of two or more values, or of none, gives each parameter the value
/// at its position. Any other value, a tuple of one value among them, goes
/// whole to the only parameter.
pub open spec fn bind_arguments(names: Seq<Seq<char>>, argument: ValueView) -> Option<
    Map<Seq<char>, ValueView>,
> {
    match argument {
        ValueView::Tuple { elements } => if elements.len() == 1 {
            if names.len() == 1 {
                Some(Map::empty().insert(names[0], argument))
            } else {
                None
            }
        } else if names.len() == elements.len() {
            Some(bind_all(names, elements, names.len() as int))
        } else {
            None
        },
        _ => if names.len() == 1 {
            Some(Map::empty().insert(names[0], argument))
        } else {
            None
        },
    }
}

/// An application evaluates its argument, finds the function by name and
/// calls it in an environment of its own. The caller's variables are out of
/// the function's sight and are not changed by it.
pub open spec fn eval_apply(
    p: ProgramView,
    fn_name: NodeId,
    param: NodeId,
    st: State,
    fuel: nat,
) -> Evaluated
    decreases fuel, 1nat, 1nat,
{
    let argument = eval_id(p, param, st, fuel);
    match argument.result {
        Err(_) => argument,
        Ok(v) => match name_at(p.arena, fn_name) {
            None => fails(
                "Internal invariant violated: expected function name to be an identifier"@,
                argument.state,
            ),
            Some(name) => if !p.functions.contains_key(name) {
                fails("Could not find function "@ + name, argument.state)
            } else {
                match parameter_names(p.arena, p.functions[name]) {
                    None => fails(
                        "Internal invariant violated: expected parameter to be an identifier"@,
                        argument.state,
                    ),
                    Some(names) => match bind_arguments(names, v) {
                        None => fails(
                            "Internal invariant violated: argument count does not match parameter count"@,
                            argument.state,
                        ),
                        Some(env) => {
                            let called = call_function(
                                p,
                                p.functions[name],
                                State { env, output: argument.state.output },
                                fuel,
                            );
                            Evaluated {
                                result: called.result,
                                state: State { env: argument.state.env, output: called.state.output },
                            }
                        },
                    },
                }
            },
        },
    }
}

/// A call leaves the variables of the caller as they were when the argument
/// had been evaluated: what the function binds is bound in its own
/// environment.
pub proof fn lemma_call_keeps_variables(
    p: ProgramView,
    fn_name: NodeId,
    param: NodeId,
    st: State,
    fuel: nat,
)
    ensures
        eval_apply(p, fn_name, param, st, fuel).state.env == eval_id(p, param, st, fuel).state.env,
{
}

/// A function starts with its parameters in sight and nothing else.
pub proof fn lemma_function_sees_parameters_only(
    names: Seq<Seq<char>>,
    argument: ValueView,
    name: Seq<char>,
)
    requires
        bind_arguments(names, argument) is Some,
        bind_arguments(names, argument)->Some_0.contains_key(name),
    ensures
        names.contains(name),
{
    match argument {
        ValueView::Tuple { elements } => {
            if elements.len() == 1 {
                assert(names[0] == name);
            } else {
                lemma_bound_names(names, elements, names.len() as int, name);
            }
        },
        _ => {
            assert(names[0] == name);
        },
    }
}

proof fn lemma_bound_names(names: Seq<Seq<char>>, values: Seq<ValueView>, i: int, name: Seq<char>)
    requires
        0 <= i <= names.len(),
        bind_all(names, values, i).contains_key(name),
    ensures
        names.contains(name),
    decreases i,
{
    if i > 0 {
        if names[i - 1] != name {
            lemma_bound_names(names, values, i - 1, name);
        }
    }
}

/// A function of the language evaluates its body; a native function does
/// what the host provides.
pub open spec fn call_function(p: ProgramView, f: NodeView, st: State, fuel: nat) -> Evaluated
    decreases fuel, 1nat, 0nat,
{
    match f {
        NodeView::GaleFunction { implementation, .. } => eval_id(p, implementation, st, fuel),
        NodeView::NativeFunction { implementation, .. } => call_native(p, implementation, st),
        _ => fails("Internal invariant violated: expected a function"@, st),
    }
}

/// The native functions take their argument from the variable `in`.
/// Printing adds the argument's text to the output. Reading hands back the
/// contents of the file whose path the argument is. Converting hands back the
/// argument's structural text.
pub open spec fn call_native(p: ProgramView, f: NativeImplementation, st: State) -> Evaluated {
    if !st.env.contains_key("in"@) {
        fails("Expected native function to be given its argument"@, st)
    } else {
        let argument = st.env["in"@];
        match f {
            NativeImplementation::Print => yields(
                ValueView::Void,
                State { env: st.env, output: st.output + display_text(argument) },
            ),
            NativeImplementation::PrintLine => yields(
                ValueView::Void,
                State { env: st.env, output: st.output + display_text(argument) + "\n"@ },
            ),
            NativeImplementation::ReadFile => match argument {
                ValueView::Text { text } => if p.files.contains_key(text) {
                    yields(ValueView::Text { text: p.files[text] }, st)
                } else {
                    Evaluated {
                        result: Err(
                            FailureView { message: "Could not read file "@ + text, wanted: Some(text) },
                        ),
                        state: st,
                    }
                },
                _ => fails("Expected the path of a file to be a text"@, st),
            },
            NativeImplementation::ToString => yields(
                ValueView::Text { text: value_debug_text(argument) },
                st,
            ),
        }
    }
}

/// The environment with each of the names bound to the number 3.
pub open spec fn seed_all(env: Map<Seq<char>, ValueView>, names: Seq<Seq<char>>, i: int) -> Map<
    Seq<char>,
    ValueView,
>
    decreases i,
{
    if i <= 0 {
        env
    } else {
        seed_all(env, names, i - 1).insert(names[i - 1], number(3))
    }
}

/// A file runs its function `main`, whose parameters all hold the number 3.
pub open spec fn eval_file(p: ProgramView, st: State, fuel: nat) -> Evaluated
    decreases fuel, 1nat, 1nat,
{
    if !p.functions.contains_key("main"@) {
        fails("No main"@, st)
    } else {
        match p.functions["main"@] {
            NodeView::GaleFunction { parameters, implementation, .. } => match names_at(
                p.arena,
                parameters,
            ) {
                None => fails(
                    "Internal invariant violated: expected parameter to be an identifier"@,
                    st,
                ),
                Some(names) => eval_id(
                    p,
                    implementation,
                    State { env: seed_all(st.env, names, names.len() as int), output: st.output },
                    fuel,
                ),
            },
            _ => fails(
                "Internal invariant violated: expected main to be a function of the program"@,
                st,
            ),
        }
    }
}

/// What an outcome of the interpreter and the state it left stand for.
pub open spec fn evaluated(r: Result<Value, Failure>, env: Environment, out: String) -> Evaluated {
    Evaluated {
        result: match r {
            Ok(v) => Ok(v@),
            Err(f) => Err(f@),
        },
        state: State { env: env@, output: out@ },
    }
}

/// The state that an environment and an output stand for.
pub open spec fn state_of(env: Environment, out: String) -> State {
    State { env: env@, output: out@ }
}

fn copy_name(n: &Name) -> (r: Name)
    ensures
        r.text@ == n.text@,
{
    Name::from_string(n.text.clone())
}

fn copy_names(ns: &Vec<Name>) -> (r: Vec<Name>)
    ensures
        names_view(r@) == names_view(ns@),
{
    let mut r: Vec<Name> = Vec::new();
    let mut i: usize = 0;
    while i < ns.len()
        invariant
            i <= ns.len(),
            r@.len() == i,
            forall|k: int| 0 <= k < i ==> r@[k].text@ == ns@[k].text@,
        decreases ns.len() - i,
    {
        r.push(copy_name(&ns[i]));
        i += 1;
    }
    assert(names_view(r@) =~= names_view(ns@));
    r
}

fn copy_ids(ids: &Vec<NodeId>) -> (r: Vec<NodeId>)
    ensures
        r@ == ids@,
{
    let mut r: Vec<NodeId> = Vec::new();
    let mut i: usize = 0;
    while i < ids.len()
        invariant
            i <= ids.len(),
            r@ == ids@.take(i as int),
        decreases ids.len() - i,
    {
        r.push(ids[i]);
        assert(ids@.take(i + 1) =~= ids@.take(i as int).push(ids@[i as int]));
        i += 1;
    }
    assert(ids@.take(ids.len() as int) =~= ids@);
    r
}

/// The name held by the identifier node `id` of the tree `t`.
fn name_in(t: &Tree, id: NodeId) -> (r: Option<&Name>)
    ensures
        match r {
            Some(n) => name_at(arena_view(t@), id) == Some(n.text@),
            None => name_at(arena_view(t@), id).is_none(),
        },
{
    if id < t.len() {
        match t.get_node_value(id) {
            Some(Node::Identifier(i)) => Some(&i.name),
            _ => None,
        }
    } else {
        None
    }
}

/// The names held by the identifier nodes `ids`.
fn names_of(program: &Program, ids: &Vec<NodeId>) -> (r: Option<Vec<Name>>)
    ensures
        match r {
            Some(names) => names_at(program@.arena, ids@) == Some(names_view(names@)),
            None => names_at(program@.arena, ids@).is_none(),
        },
{
    let mut names: Vec<Name> = Vec::new();
    let mut i: usize = 0;
    while i < ids.len()
        invariant
            i <= ids.len(),
            names@.len() == i,
            forall|k: int|
                0 <= k < i ==> (#[trigger] name_at(program@.arena, ids@[k])) == Some(names@[k].text@),
        decreases ids.len() - i,
    {
        match program.get_name(ids[i]) {
            None => {
                assert(name_at(program@.arena, ids@[i as int]).is_none());
                return None;
            },
            Some(n) => {
                names.push(copy_name(n));
            },
        }
        i += 1;
    }
    assert(names_view(names@) =~= Seq::new(
        ids@.len(),
        |k: int| name_at(program@.arena, ids@[k]).unwrap(),
    ));
    Some(names)
}

/// Makes the function `f` known under `name`, to the program and as a value.
pub fn add_function(program: &mut Program, env: &mut Environment, name: Name, f: Function)
    ensures
        final(env)@ == old(env)@.insert(name.text@, ValueView::Function { name: name.text@ }),
        final(program)@ == (ProgramView {
            functions: old(program)@.functions.insert(name.text@, f@),
            ..old(program)@
        }),
{
    env.extend(copy_name(&name), Value::from_function(name.text.clone()));
    program.extend(name, f);
}

fn missing_argument() -> (f: Failure)
    ensures
        f@ == because("Expected native function to be given its argument"@),
{
    Failure::new("Expected native function to be given its argument")
}

/// Adds the text of the variable `in` to the output.
pub fn print(program: &Program, env: &Environment, out: &mut String) -> (r: Result<Value, Failure>)
    ensures
        evaluated(r, *env, *final(out)) == call_native(
            program@,
            NativeImplementation::Print,
            state_of(*env, *old(out)),
        ),
{
    match env.lookup(&Name::from_str("in")) {
        Some(v) => {
            out.append(v.to_text().as_str());
            Ok(Value::Void)
        },
        None => Err(missing_argument()),
    }
}

/// Adds the text of the variable `in` and the end of a line to the output.
pub fn println(program: &Program, env: &Environment, out: &mut String) -> (r: Result<Value, Failure>)
    ensures
        evaluated(r, *env, *final(out)) == call_native(
            program@,
            NativeImplementation::PrintLine,
            state_of(*env, *old(out)),
        ),
{
    match env.lookup(&Name::from_str("in")) {
        Some(v) => {
            out.append(v.to_text().as_str());
            out.append("\n");
            Ok(Value::Void)
        },
        None => Err(missing_argument()),
    }
}

/// Hands back the contents of the file whose path the variable `in` holds.
pub fn read_file(program: &Program, env: &Environment, out: &mut String) -> (r: Result<Value, Failure>)
    ensures
        evaluated(r, *env, *final(out)) == call_native(
            program@,
            NativeImplementation::ReadFile,
            state_of(*env, *old(out)),
        ),
{
    match env.lookup(&Name::from_str("in")) {
        Some(Value::Text(t)) => {
            match program.get_file(&t.text) {
                Some(text) => Ok(Value::from_text_string(text.clone())),
                None => Err(
                    Failure {
                        message: String::from_str("Could not read file ").concat(t.text.as_str()),
                        wanted: Some(t.text.clone()),
                    },
                ),
            }
        },
        Some(_) => Err(Failure::new("Expected the path of a file to be a text")),
        None => Err(missing_argument()),
    }
}

/// Hands back the structural text of the variable `in`.
pub fn to_string(program: &Program, env: &Environment, out: &mut String) -> (r: Result<Value, Failure>)
    ensures
        evaluated(r, *env, *final(out)) == call_native(
            program@,
            NativeImplementation::ToString,
            state_of(*env, *old(out)),
        ),
{
    match env.lookup(&Name::from_str("in")) {
        Some(v) => Ok(Value::from_text_string(v.to_debug_text())),
        None => Err(missing_argument()),
    }
}

/// Evaluates the node `id`.
pub fn interpret_id(
    id: NodeId,
    program: &Program,
    env: &mut Environment,
    out: &mut String,
    fuel: usize,
) -> (r: Result<Value, Failure>)
    ensures
        evaluated(r, *final(env), *final(out)) == eval_id(
            program@,
            id,
            state_of(*old(env), *old(out)),
            fuel as nat,
        ),
    decreases fuel, 0nat, 0nat,
{
    if fuel == 0 {
        return Err(Failure::new("Evaluation ran too deep"));
    }
    match program.get_node(id) {
        None => Err(Failure::new("Internal invariant violated: expected node to exist")),
        Some(node) => node.interpret(program, env, out, fuel - 1),
    }
}

impl File {
    /// Runs the function `main`, with the number 3 in each of its parameters.
    pub fn interpret(&self, program: &Program, env: &mut Environment, out: &mut String, fuel: usize) -> (r:
        Result<Value, Failure>)
        ensures
            evaluated(r, *final(env), *final(out)) == eval_file(
                program@,
                state_of(*old(env), *old(out)),
                fuel as nat,
            ),
        decreases fuel, 1nat, 1nat,
    {
        match program.lookup(&Name::from_str("main")) {
            Some(Function::GaleFunction(g)) => {
                let names = match names_of(program, &g.parameters) {
                    None => {
                        return Err(Failure::new(
                            "Internal invariant violated: expected parameter to be an identifier",
                        ));
                    },
                    Some(names) => names,
                };
                let ghost start = env@;
                let mut i: usize = 0;
                while i < names.len()
                    invariant
                        i <= names.len(),
                        env@ == seed_all(start, names_view(names@), i as int),
                    decreases names.len() - i,
                {
                    env.extend(copy_name(&names[i]), Value::from_num(3));
                    i += 1;
                }
                g.interpret(program, env, out, fuel)
            },
            None => Err(Failure::new("No main")),
            Some(_) => Err(Failure::new(
                "Internal invariant violated: expected main to be a function of the program",
            )),
        }
    }
}

impl GaleFunction {
    /// Evaluates the body of the function.
    pub fn interpret(&self, program: &Program, env: &mut Environment, out: &mut String, fuel: usize) -> (r:
        Result<Value, Failure>)
        ensures
            evaluated(r, *final(env), *final(out)) == eval_id(
                program@,
                self.implementation,
                state_of(*old(env), *old(out)),
                fuel as nat,
            ),
        decreases fuel, 0nat, 1nat,
    {
        interpret_id(self.implementation, program, env, out, fuel)
    }
}

impl NativeFunction {
    /// Does what the native function stands for.
    pub fn interpret(&self, program: &Program, env: &mut Environment, out: &mut String, fuel: usize) -> (r:
        Result<Value, Failure>)
        ensures
            evaluated(r, *final(env), *final(out)) == call_native(
                program@,
                self.implementation,
                state_of(*old(env), *old(out)),
            ),
    {
        match self.implementation {
            NativeImplementation::Print => print(program, env, out),
            NativeImplementation::PrintLine => println(program, env, out),
            NativeImplementation::ReadFile => read_file(program, env, out),
            NativeImplementation::ToString => to_string(program, env, out),
        }
    }
}

impl Function {
    /// Calls the function in the environment `env`.
    pub fn interpret(&self, program: &Program, env: &mut Environment, out: &mut String, fuel: usize) -> (r:
        Result<Value, Failure>)
        ensures
            evaluated(r, *final(env), *final(out)) == call_function(
                program@,
                self@,
                state_of(*old(env), *old(out)),
                fuel as nat,
            ),
        decreases fuel, 1nat, 0nat,
    {
        match self {
            Function::GaleFunction(g) => g.interpret(program, env, out, fuel),
            Function::NativeFunction(f) => f.interpret(program, env, out, fuel),
        }
    }
}

impl Let {
    /// Evaluates the initializer and binds its value.
    pub fn interpret(&self, program: &Program, env: &mut Environment, out: &mut String, fuel: usize) -> (r:
        Result<Value, Failure>)
        ensures
            evaluated(r, *final(env), *final(out)) == eval_let(
                program@,
                self.id,
                self.exp,
                state_of(*old(env), *old(out)),
                fuel as nat,
            ),
        decreases fuel, 1nat, 0nat,
    {
        let v = match interpret_id(self.exp, program, env, out, fuel) {
            Err(f) => {
                return Err(f);
            },
            Ok(v) => v,
        };
        match program.get_name(self.id) {
            None => Err(Failure::new(
                "Internal invariant violated: expected let to bind an identifier",
            )),
            Some(name) => {
                env.extend(copy_name(name), v);
                Ok(Value::Void)
            },
        }
    }
}

impl Sequence {
    /// Evaluates the statements in order.
    pub fn interpret(&self, program: &Program, env: &mut Environment, out: &mut String, fuel: usize) -> (r:
        Result<Value, Failure>)
        ensures
            evaluated(r, *final(env), *final(out)) == eval_sequence(
                program@,
                self.elements@,
                0,
                state_of(*old(env), *old(out)),
                fuel as nat,
            ),
        decreases fuel, 1nat, 1nat,
    {
        let n = self.elements.len();
        if n == 0 {
            return Err(Failure::new("Expected seq to produce value"));
        }
        let mut i: usize = 0;
        while i < n - 1
            invariant
                n == self.elements.len(),
                i <= n - 1,
                eval_sequence(program@, self.elements@, i as int, state_of(*env, *out), fuel as nat)
                    == eval_sequence(
                    program@,
                    self.elements@,
                    0,
                    state_of(*old(env), *old(out)),
                    fuel as nat,
                ),
            decreases n - i,
        {
            match interpret_id(self.elements[i], program, env, out, fuel) {
                Err(f) => {
                    return Err(f);
                },
                Ok(_) => {},
            }
            i += 1;
        }
        interpret_id(self.elements[i], program, env, out, fuel)
    }
}

impl Identifier {
    /// Looks the identifier up in the environment.
    pub fn interpret(&self, program: &Program, env: &mut Environment, out: &mut String, fuel: usize) -> (r:
        Result<Value, Failure>)
        ensures
            evaluated(r, *final(env), *final(out)) == eval_node(
                program@,
                Node::Identifier(*self)@,
                state_of(*old(env), *old(out)),
                fuel as nat,
            ),
    {
        match env.lookup(&self.name) {
            Some(v) => Ok(v.clone()),
            None => Err(
                Failure::from(
                    String::from_str("Could not find identifier ").concat(self.name.text.as_str()),
                ),
            ),
        }
    }
}

/// What an operator makes of two values.
pub fn operate(op: BinOpType, lhs: Value, rhs: Value) -> (r: Result<Value, Failure>)
    ensures
        match r {
            Ok(v) => apply_operator(op, lhs@, rhs@) == Ok::<ValueView, FailureView>(v@),
            Err(f) => apply_operator(op, lhs@, rhs@) == Err::<ValueView, FailureView>(f@),
        },
{
    match (&lhs, &rhs, op) {
        (Value::Number(a), Value::Number(b), BinOpType::Mult) => {
            match a.value.checked_mul(b.value) {
                Some(v) => Ok(Value::from_num(v)),
                None => Err(Failure::new("Arithmetic overflow")),
            }
        },
        (Value::Number(a), Value::Number(b), BinOpType::Plus) => {
            match a.value.checked_add(b.value) {
                Some(v) => Ok(Value::from_num(v)),
                None => Err(Failure::new("Arithmetic overflow")),
            }
        },
        (Value::Array(elems), Value::Number(index), BinOpType::ArrIndex) => {
            assert(values_view(elems.elements).len() == elems.elements.len());
            if index.value >= 0 && (index.value as u64) < (elems.elements.len() as u64) {
                let i = index.value as usize;
                assert(values_view(elems.elements)[i as int] == elems.elements[i as int]@);
                Ok(elems.elements[i].clone())
            } else {
                Err(Failure::new("Internal invariant violated: array index out of bounds"))
            }
        },
        _ => {
            let mut m = String::from_str("Invalid binop nodes: ");
            m.append(lhs.to_debug_text().as_str());
            m.append(", ");
            m.append(rhs.to_debug_text().as_str());
            Err(Failure::from(m))
        },
    }
}

impl BinOp {
    /// Evaluates both sides and applies the operator.
    pub fn interpret(&self, program: &Program, env: &mut Environment, out: &mut String, fuel: usize) -> (r:
        Result<Value, Failure>)
        ensures
            evaluated(r, *final(env), *final(out)) == eval_binop(
                program@,
                self.lhs,
                self.rhs,
                self.op_type,
                state_of(*old(env), *old(out)),
                fuel as nat,
            ),
        decreases fuel, 1nat, 0nat,
    {
        let lhs = match interpret_id(self.lhs, program, env, out, fuel) {
            Err(f) => {
                return Err(f);
            },
            Ok(v) => v,
        };
        let rhs = match interpret_id(self.rhs, program, env, out, fuel) {
            Err(f) => {
                return Err(f);
            },
            Ok(v) => v,
        };
        operate(self.op_type, lhs, rhs)
    }
}

/// The environment a function starts in when it is called with `argument`.
pub fn bind(names: Vec<Name>, argument: Value) -> (r: Option<Environment>)
    ensures
        match r {
            Some(env) => bind_arguments(names_view(names@), argument@) == Some(env@),
            None => bind_arguments(names_view(names@), argument@).is_none(),
        },
{
    let mut new_env = Environment::new();
    match argument {
        Value::Tuple(tuple) => {
            assert(values_view(tuple.elements).len() == tuple.elements.len());
            if tuple.elements.len() == 1 {
                if names.len() != 1 {
                    return None;
                }
                new_env.extend(copy_name(&names[0]), Value::Tuple(tuple));
            } else {
                if names.len() != tuple.elements.len() {
                    return None;
                }
                let mut i: usize = 0;
                while i < names.len()
                    invariant
                        i <= names.len(),
                        names.len() == tuple.elements.len(),
                        new_env@ == bind_all(
                            names_view(names@),
                            values_view(tuple.elements),
                            i as int,
                        ),
                    decreases names.len() - i,
                {
                    new_env.extend(copy_name(&names[i]), tuple.elements[i].clone());
                    i += 1;
                }
            }
        },
        v => {
            if names.len() != 1 {
                return None;
            }
            new_env.extend(copy_name(&names[0]), v);
        },
    }
    Some(new_env)
}

impl Apply {
    /// Evaluates the argument and calls the function.
    pub fn interpret(&self, program: &Program, env: &mut Environment, out: &mut String, fuel: usize) -> (r:
        Result<Value, Failure>)
        ensures
            evaluated(r, *final(env), *final(out)) == eval_apply(
                program@,
                self.fn_name,
                self.param,
                state_of(*old(env), *old(out)),
                fuel as nat,
            ),
        decreases fuel, 1nat, 1nat,
    {
        let param_values = match interpret_id(self.param, program, env, out, fuel) {
            Err(f) => {
                return Err(f);
            },
            Ok(v) => v,
        };
        let name = match program.get_name(self.fn_name) {
            None => {
                return Err(Failure::new(
                    "Internal invariant violated: expected function name to be an identifier",
                ));
            },
            Some(name) => name,
        };
        let function = match program.lookup(name) {
            None => {
                return Err(
                    Failure::from(String::from_str("Could not find function ").concat(name.text.as_str())),
                );
            },
            Some(f) => f,
        };
        let param_names = match function {
            Function::NativeFunction(f) => copy_names(&f.parameters),
            Function::GaleFunction(g) => match names_of(program, &g.parameters) {
                None => {
                    return Err(Failure::new(
                        "Internal invariant violated: expected parameter to be an identifier",
                    ));
                },
                Some(names) => names,
            },
        };
        let mut new_env = match bind(param_names, param_values) {
            None => {
                return Err(Failure::new(
                    "Internal invariant violated: argument count does not match parameter count",
                ));
            },
            Some(e) => e,
        };
        function.interpret(program, &mut new_env, out, fuel)
    }
}

/// Evaluates the nodes `ids` in order and collects their values.
fn interpret_all(
    ids: &Vec<NodeId>,
    program: &Program,
    env: &mut Environment,
    out: &mut String,
    fuel: usize,
) -> (r: Result<Vec<Value>, Failure>)
    ensures
        state_of(*final(env), *final(out)) == eval_list(
            program@,
            ids@,
            0,
            state_of(*old(env), *old(out)),
            fuel as nat,
            Seq::empty(),
        ).state,
        match r {
            Ok(values) => eval_list(
                program@,
                ids@,
                0,
                state_of(*old(env), *old(out)),
                fuel as nat,
                Seq::empty(),
            ).result == Ok::<Seq<ValueView>, FailureView>(values_view(values)),
            Err(f) => eval_list(
                program@,
                ids@,
                0,
                state_of(*old(env), *old(out)),
                fuel as nat,
                Seq::empty(),
            ).result == Err::<Seq<ValueView>, FailureView>(f@),
        },
    decreases fuel, 1nat, 0nat,
{
    let mut res: Vec<Value> = Vec::new();
    let mut i: usize = 0;
    assert(values_view(res) =~= Seq::<ValueView>::empty());
    while i < ids.len()
        invariant
            i <= ids.len(),
            eval_list(program@, ids@, i as int, state_of(*env, *out), fuel as nat, values_view(res))
                == eval_list(
                program@,
                ids@,
                0,
                state_of(*old(env), *old(out)),
                fuel as nat,
                Seq::empty(),
            ),
        decreases ids.len() - i,
    {
        let ghost before = values_view(res);
        match interpret_id(ids[i], program, env, out, fuel) {
            Err(f) => {
                return Err(f);
            },
            Ok(v) => {
                res.push(v);
                assert(values_view(res) =~= before.push(v@));
            },
        }
        i += 1;
    }
    Ok(res)
}

impl Tuple {
    /// Evaluates the members in order.
    pub fn interpret(&self, program: &Program, env: &mut Environment, out: &mut String, fuel: usize) -> (r:
        Result<Value, Failure>)
        ensures
            evaluated(r, *final(env), *final(out)) == eval_node(
                program@,
                Node::Tuple(*self)@,
                state_of(*old(env), *old(out)),
                fuel as nat,
            ),
        decreases fuel, 1nat, 1nat,
    {
        match interpret_all(&self.elements, program, env, out, fuel) {
            Err(f) => Err(f),
            Ok(res) => Ok(Value::from_tuple(res)),
        }
    }
}

impl Array {
    /// Evaluates the elements in order.
    pub fn interpret(&self, program: &Program, env: &mut Environment, out: &mut String, fuel: usize) -> (r:
        Result<Value, Failure>)
        ensures
            evaluated(r, *final(env), *final(out)) == eval_node(
                program@,
                Node::Array(*self)@,
                state_of(*old(env), *old(out)),
                fuel as nat,
            ),
        decreases fuel, 1nat, 1nat,
    {
        match interpret_all(&self.elements, program, env, out, fuel) {
            Err(f) => Err(f),
            Ok(res) => Ok(Value::from_array(res)),
        }
    }
}

impl Node {
    /// Evaluates the node in the environment `env`, adding to `out` what it
    /// prints.
    pub fn interpret(&self, program: &Program, env: &mut Environment, out: &mut String, fuel: usize) -> (r:
        Result<Value, Failure>)
        ensures
            evaluated(r, *final(env), *final(out)) == eval_node(
                program@,
                self@,
                state_of(*old(env), *old(out)),
                fuel as nat,
            ),
        decreases fuel, 2nat, 0nat,
    {
        match self {
            Node::Let(n) => n.interpret(program, env, out, fuel),
            Node::Sequence(n) => n.interpret(program, env, out, fuel),
            Node::Identifier(n) => n.interpret(program, env, out, fuel),
            Node::BinOp(n) => n.interpret(program, env, out, fuel),
            Node::Number(n) => Ok(Value::from_num(n.value)),
            Node::Text(n) => Ok(Value::from_text_string(n.text.clone())),
            Node::Boolean(n) => Ok(Value::from_bool(n.value)),
            Node::Apply(n) => n.interpret(program, env, out, fuel),
            Node::Tuple(n) => n.interpret(program, env, out, fuel),
            Node::Array(n) => n.interpret(program, env, out, fuel),
            Node::File(n) => n.interpret(program, env, out, fuel),
            _ => Err(Failure::new("Cannot interpret this node")),
        }
    }
}

/// A native function, which takes its argument in the variable `in`.
pub open spec fn native(name: Seq<char>, implementation: NativeImplementation) -> NodeView {
    NodeView::NativeFunction { name, parameters: seq!["in"@], implementation }
}

/// The functions every program can call.
pub open spec fn standard_functions() -> Map<Seq<char>, NodeView> {
    Map::<Seq<char>, NodeView>::empty().insert(
        "std.print"@,
        native("std.print"@, NativeImplementation::Print),
    ).insert("std.println"@, native("std.println"@, NativeImplementation::PrintLine)).insert(
        "std.read"@,
        native("std.read"@, NativeImplementation::ReadFile),
    ).insert("std.to_string"@, native("std.to_string"@, NativeImplementation::ToString))
}

/// The value that stands for the function `name`.
pub open spec fn function_value(name: Seq<char>) -> ValueView {
    ValueView::Function { name }
}

/// The variables every program starts with: each standard function under
/// its name.
pub open spec fn standard_environment() -> Map<Seq<char>, ValueView> {
    Map::<Seq<char>, ValueView>::empty().insert("std.print"@, function_value("std.print"@)).insert(
        "std.println"@,
        function_value("std.println"@),
    ).insert("std.read"@, function_value("std.read"@)).insert(
        "std.to_string"@,
        function_value("std.to_string"@),
    )
}

/// The functions known by name, and the variables that hold them.
pub struct Registered {
    pub functions: Map<Seq<char>, NodeView>,
    pub env: Map<Seq<char>, ValueView>,
}

/// What is known after also making known the functions that the nodes from
/// the `i`-th on are. Each has to be a function of the language whose name is
/// an identifier.
pub open spec fn register(arena: Seq<SlotView>, ids: Seq<NodeId>, i: int, known: Registered) -> Result<
    Registered,
    Seq<char>,
>
    decreases ids.len() - i,
{
    if i < 0 || i >= ids.len() {
        Ok(known)
    } else {
        match node_at(arena, ids[i]) {
            Some(NodeView::GaleFunction { name, parameters, implementation }) => match name_at(
                arena,
                name,
            ) {
                None => Err("Internal invariant violated: expected function name to be an identifier"@),
                Some(text) => register(
                    arena,
                    ids,
                    i + 1,
                    Registered {
                        functions: known.functions.insert(
                            text,
                            NodeView::GaleFunction { name, parameters, implementation },
                        ),
                        env: known.env.insert(text, function_value(text)),
                    },
                ),
            },
            _ => Err("Internal invariant violated: expected top level node to be a function"@),
        }
    }
}

/// How running a program ends: with the value of `main` or with a failure;
/// and with the text the program has printed.
pub struct Ran {
    pub result: Result<ValueView, FailureView>,
    pub output: Seq<char>,
}

/// Running the program in `arena`, whose root has to be a file: the
/// functions the file lists are made known beside the standard ones, and the
/// file is evaluated.
pub open spec fn run_program(arena: Seq<SlotView>, files: Map<Seq<char>, Seq<char>>, fuel: nat) -> Ran {
    match node_at(arena, root_id) {
        Some(NodeView::File { functions }) => match register(
            arena,
            functions,
            0,
            Registered { functions: standard_functions(), env: standard_environment() },
        ) {
            Err(message) => Ran { result: Err(because(message)), output: Seq::empty() },
            Ok(known) => {
                let e = eval_id(
                    ProgramView { arena, functions: known.functions, files },
                    root_id,
                    State { env: known.env, output: Seq::empty() },
                    fuel,
                );
                Ran { result: e.result, output: e.state.output }
            },
        },
        _ => Ran {
            result: Err(because(
                "Internal invariant violated: expected the root of the program to be a file"@,
            )),
            output: Seq::empty(),
        },
    }
}

/// The outcome of a run.
pub struct Run {
    pub result: Result<Value, Failure>,
    /// What the program has printed.
    pub output: String,
}

impl View for Run {
    type V = Ran;

    open spec fn view(&self) -> Ran {
        Ran {
            result: match self.result {
                Ok(v) => Ok(v@),
                Err(f) => Err(f@),
            },
            output: self.output@,
        }
    }
}

fn native_function(name: &str, implementation: NativeImplementation) -> (f: Function)
    ensures
        f@ == native(name@, implementation),
{
    let mut parameters: Vec<Name> = Vec::new();
    parameters.push(Name::from_str("in"));
    assert(names_view(parameters@) =~= seq!["in"@]);
    Function::new_native(Name::from_str(name), parameters, implementation)
}

/// Runs the program `t`. It may read the files `files`, by path, and is cut
/// off when evaluation goes deeper than `depth`.
pub fn run(t: Tree, files: NameMap<String>, depth: usize) -> (r: Run)
    ensures
        r@ == run_program(arena_view(t@), files@.map_values(|s: String| s@), depth as nat),
{
    let mut p = Program::with_files(t, files);
    let mut env = Environment::new();
    add_function(
        &mut p,
        &mut env,
        Name::from_str("std.print"),
        native_function("std.print", NativeImplementation::Print),
    );
    add_function(
        &mut p,
        &mut env,
        Name::from_str("std.println"),
        native_function("std.println", NativeImplementation::PrintLine),
    );
    add_function(
        &mut p,
        &mut env,
        Name::from_str("std.read"),
        native_function("std.read", NativeImplementation::ReadFile),
    );
    add_function(
        &mut p,
        &mut env,
        Name::from_str("std.to_string"),
        native_function("std.to_string", NativeImplementation::ToString),
    );
    let ghost arena = p@.arena;
    let ghost start = Registered { functions: p@.functions, env: env@ };
    let mut failure: Option<Failure> = None;
    if p.ast.len() == 0 {
        failure = Some(Failure::new(
            "Internal invariant violated: expected the root of the program to be a file",
        ));
    } else {
        match p.ast.get_node_value(root_id) {
            Some(Node::File(f)) => {
                let mut i: usize = 0;
                while i < f.functions.len() && failure.is_none()
                    invariant
                        i <= f.functions.len(),
                        p@.arena == arena,
                        p@.files == files@.map_values(|s: String| s@),
                        match failure {
                            None => register(
                                arena,
                                f.functions@,
                                i as int,
                                Registered { functions: p@.functions, env: env@ },
                            ) == register(arena, f.functions@, 0, start),
                            Some(e) => register(arena, f.functions@, 0, start) == Err::<
                                Registered,
                                Seq<char>,
                            >(e.message@) && e.wanted.is_none(),
                        },
                    decreases f.functions.len() - i + if failure.is_none() { 1nat } else { 0nat },
                {
                    let id = f.functions[i];
                    let node = if id < p.ast.len() {
                        p.ast.get_node_value(id)
                    } else {
                        None
                    };
                    match node {
                        Some(Node::Function(Function::GaleFunction(g))) => {
                            match name_in(&p.ast, g.name) {
                                None => {
                                    failure = Some(
                                        Failure::new(
                                            "Internal invariant violated: expected function name to be an identifier",
                                        ),
                                    );
                                },
                                Some(name) => {
                                    let ghost before = p@.functions;
                                    let copy = Function::GaleFunction(
                                        GaleFunction {
                                            name: g.name,
                                            parameters: copy_ids(&g.parameters),
                                            implementation: g.implementation,
                                        },
                                    );
                                    env.extend(copy_name(name), Value::from_function(name.text.clone()));
                                    p.functions.insert(name.text.clone(), copy);
                                    assert(p@.functions =~= before.insert(
                                        name.text@,
                                        Function::GaleFunction(*g)@,
                                    ));
                                    i += 1;
                                },
                            }
                        },
                        _ => {
                            failure = Some(Failure::new(
                                "Internal invariant violated: expected top level node to be a function",
                            ));
                        },
                    }
                }
            },
            _ => {
                failure = Some(Failure::new(
                    "Internal invariant violated: expected the root of the program to be a file",
                ));
            },
        }
    }
    match failure {
        Some(f) => Run { result: Err(f), output: String::new() },
        None => {
            let mut out = String::new();
            let result = interpret_id(root_id, &p, &mut env, &mut out, depth);
            Run { result: result, output: out }
        },
    }
}

/// Runs the program `t`, which can read no file, to the default depth, and
/// hands back the value of `main`. What the program prints is dropped.
pub fn interpret(t: Tree) -> (r: Result<Value, Failure>)
    ensures
        match r {
            Ok(v) => run_program(arena_view(t@), Map::empty(), DEFAULT_DEPTH as nat).result == Ok::<
                ValueView,
                FailureView,
            >(v@),
            Err(f) => run_program(arena_view(t@), Map::empty(), DEFAULT_DEPTH as nat).result == Err::<
                ValueView,
                FailureView,
            >(f@),
        },
{
    let files: NameMap<String> = NameMap::new();
    assert(files@.map_values(|s: String| s@) =~= Map::<Seq<char>, Seq<char>>::empty());
    run(t, files, DEFAULT_DEPTH).result
}

} // verus!
