//! Graphs derived from the arena tree: the tree itself as a graph, the graph
//! of lexical scopes, and the graph of type dependencies.
use crate::collections::flat_tree::{
    children_of, is_child, lemma_children_facts, lemma_live_facts, live_from, lookup,
    parents_precede, reachable, PreOrderTreeIterator, RandomFlatTreeIterator, Slot,
};
use crate::collections::graph::{
    Edge, Graph, GraphEdgeProperty, GraphVertexProperty, Vertex, VertexIterator,
};
use crate::data::mlr_ast::{BinOpType, Function, Node, NodeId, NodeView, Tree};
use crate::data::types::Type;
use vstd::prelude::*;

verus! {

/// The edges from `n` to each of its first `k` children.
pub open spec fn child_edges(s: Seq<Slot<Node>>, n: NodeId, k: int) -> Seq<Edge> {
    Seq::new(k as nat, |j: int| (n as u32, children_of(s, n)[j] as u32))
}

/// The edges from each of the nodes `ids` to each of its children, node by
/// node.
pub open spec fn tree_edges(s: Seq<Slot<Node>>, ids: Seq<NodeId>) -> Seq<Edge>
    decreases ids.len(),
{
    if ids.len() == 0 {
        Seq::empty()
    } else {
        tree_edges(s, ids.drop_last()) + child_edges(
            s,
            ids.last(),
            children_of(s, ids.last()).len() as int,
        )
    }
}

/// The identities as vertices.
pub open spec fn as_vertices(ids: Seq<NodeId>) -> Seq<Vertex> {
    Seq::new(ids.len(), |j: int| ids[j] as u32)
}

/// The tree as a graph: a vertex for every live node and an edge from every
/// live node to each of its children.
pub fn gen_node_graph(t: &Tree) -> (g: Graph)
    requires
        t@.len() <= u32::MAX,
    ensures
        g.wf(),
        g.vertex_seq() == as_vertices(live_from(t@, 0)),
        g.edge_seq() == tree_edges(t@, live_from(t@, 0)),
        forall|v: Vertex| g.vertices().contains(v) <==> lookup(t@, v as int).is_some(),
        forall|a: Vertex, b: Vertex|
            g.edges().contains((a, b)) <==> lookup(t@, a as int).is_some() && is_child(
                t@,
                b as int,
                a as NodeId,
            ),
{
    let mut g = Graph::new();
    let mut it = RandomFlatTreeIterator::new(t);
    let ghost s = t@;
    let ghost all = live_from(s, 0);
    let ghost visited: Seq<NodeId> = Seq::empty();
    proof {
        lemma_live_facts(s, 0);
        assert(as_vertices(visited) =~= Seq::<Vertex>::empty());
        assert(visited + it.remaining() =~= all);
    }
    loop
        invariant
            s == t@,
            s.len() <= u32::MAX,
            all == live_from(s, 0),
            it.tree() == *t,
            g.wf(),
            visited + it.remaining() == all,
            g.vertex_seq() == as_vertices(visited),
            g.edge_seq() == tree_edges(s, visited),
            forall|n: NodeId| #[trigger] all.contains(n) <==> n < s.len() && s[n as int].live,
            forall|i: int, j: int| 0 <= i < j < all.len() ==> all[i] < all[j],
        ensures
            visited == all,
            g.wf(),
            g.vertex_seq() == as_vertices(visited),
            g.edge_seq() == tree_edges(s, visited),
        decreases it.remaining().len(),
    {
        let ghost before = it.remaining();
        match it.next() {
            None => {
                proof {
                    assert(visited + before =~= visited);
                }
                break ;
            },
            Some((n, _)) => {
                let ghost k = visited.len() as int;
                proof {
                    assert(before[0] == n);
                    assert(all[k] == n);
                    assert(all.contains(n));
                    assert(all.take(k) =~= visited);
                    assert forall|j: int| 0 <= j < k implies #[trigger] g.vertex_seq()[j] != n as u32 by {
                        assert(all[j] < all[k]);
                    }
                    lemma_tree_edges_sources(s, visited);
                }
                g.make_vertex(n as u32);
                let children = t.get_children(n);
                let ghost grown = visited.push(n);
                let ghost earlier = tree_edges(s, visited);
                proof {
                    assert(as_vertices(grown) =~= as_vertices(visited).push(n as u32));
                    assert(grown.drop_last() =~= visited);
                    assert(child_edges(s, n, 0) =~= Seq::<Edge>::empty());
                    assert(earlier + child_edges(s, n, 0) =~= earlier);
                    lemma_children_facts(s, n, s.len() as int);
                }
                let mut c: usize = 0;
                while c < children.len()
                    invariant
                        c <= children.len(),
                        children@ == children_of(s, n),
                        s.len() <= u32::MAX,
                        n < s.len(),
                        g.wf(),
                        g.vertex_seq() == as_vertices(grown),
                        g.edge_seq() == earlier + child_edges(s, n, c as int),
                        forall|j: int| 0 <= j < earlier.len() ==> (#[trigger] earlier[j]).0 != n as u32,
                        forall|x: NodeId| #[trigger]
                            children@.contains(x) <==> x < s.len() && is_child(s, x as int, n),
                        forall|i: int, j: int| 0 <= i < j < children@.len() ==> children@[i] < children@[j],
                    decreases children.len() - c,
                {
                    let child = children[c];
                    proof {
                        assert(children@.contains(child));
                        let e = (n as u32, child as u32);
                        let sofar = earlier + child_edges(s, n, c as int);
                        assert forall|j: int| 0 <= j < sofar.len() implies sofar[j] != e by {
                            if j >= earlier.len() {
                                let i = j - earlier.len();
                                assert(children@.contains(children@[i]));
                                assert(children@[i] < children@[c as int]);
                            }
                        }
                        assert(child_edges(s, n, c + 1) =~= child_edges(s, n, c as int).push(e));
                        assert(sofar.push(e) =~= earlier + child_edges(s, n, c + 1));
                    }
                    g.new_edge(n as u32, child as u32);
                    c += 1;
                }
                proof {
                    visited = grown;
                    assert(visited + it.remaining() =~= all);
                }
            },
        }
    }
    proof {
        lemma_node_graph_members(s);
    }
    g
}

/// Every edge of `tree_edges` starts at one of the given nodes.
proof fn lemma_tree_edges_sources(s: Seq<Slot<Node>>, ids: Seq<NodeId>)
    ensures
        forall|j: int|
            0 <= j < tree_edges(s, ids).len() ==> exists|i: int|
                0 <= i < ids.len() && (#[trigger] tree_edges(s, ids)[j]).0 == ids[i] as u32,
    decreases ids.len(),
{
    if ids.len() > 0 {
        let front = ids.drop_last();
        lemma_tree_edges_sources(s, front);
        let es = tree_edges(s, ids);
        let earlier = tree_edges(s, front);
        assert forall|j: int| 0 <= j < es.len() implies exists|i: int|
            0 <= i < ids.len() && (#[trigger] es[j]).0 == ids[i] as u32 by {
            if j < earlier.len() {
                assert(es[j] == earlier[j]);
                let i = choose|i: int| 0 <= i < front.len() && earlier[j].0 == front[i] as u32;
                assert(ids[i] == front[i]);
            } else {
                assert(es[j].0 == ids[ids.len() - 1] as u32);
            }
        }
    }
}

/// The vertices of the node graph are the live nodes, and its edges lead
/// from the live nodes to their children.
pub proof fn lemma_node_graph_members(s: Seq<Slot<Node>>)
    requires
        s.len() <= u32::MAX,
    ensures
        forall|v: Vertex|
            as_vertices(live_from(s, 0)).to_set().contains(v) <==> lookup(s, v as int).is_some(),
        forall|a: Vertex, b: Vertex|
            tree_edges(s, live_from(s, 0)).to_set().contains((a, b)) <==> lookup(s, a as int).is_some()
                && is_child(s, b as int, a as NodeId),
{
    let all = live_from(s, 0);
    let vs = as_vertices(all);
    lemma_live_facts(s, 0);
    assert forall|v: Vertex| vs.to_set().contains(v) <==> lookup(s, v as int).is_some() by {
        if vs.contains(v) {
            let j = choose|j: int| 0 <= j < vs.len() && vs[j] == v;
            assert(all.contains(all[j]));
        }
        if lookup(s, v as int).is_some() {
            assert(all.contains(v as NodeId));
            let j = choose|j: int| 0 <= j < all.len() && all[j] == v as NodeId;
            assert(vs[j] == v);
        }
    }
    lemma_tree_edges_members(s, all);
    assert forall|a: Vertex, b: Vertex|
        tree_edges(s, all).to_set().contains((a, b)) <==> lookup(s, a as int).is_some() && is_child(
            s,
            b as int,
            a as NodeId,
        ) by {
        let e = (a, b);
        if tree_edges(s, all).contains(e) {
            let (i, j) = choose|i: int, j: int|
                0 <= i < all.len() && 0 <= j < children_of(s, all[i]).len() && e == (
                    all[i] as u32,
                    #[trigger] children_of(s, all[i])[j] as u32,
                );
            assert(all.contains(all[i]));
            lemma_children_facts(s, all[i], s.len() as int);
            assert(children_of(s, all[i]).contains(children_of(s, all[i])[j]));
        }
        if lookup(s, a as int).is_some() && is_child(s, b as int, a as NodeId) {
            assert(all.contains(a as NodeId));
            let i = choose|i: int| 0 <= i < all.len() && all[i] == a as NodeId;
            lemma_children_facts(s, a as NodeId, s.len() as int);
            let kids = children_of(s, a as NodeId);
            let child = b as NodeId;
            assert(kids.contains(child));
            let j = choose|j: int| 0 <= j < kids.len() && kids[j] == child;
            assert(0 <= i < all.len() && 0 <= j < children_of(s, all[i]).len() && e == (
                all[i] as u32,
                children_of(s, all[i])[j] as u32,
            ));
        }
    }
}

/// An edge is in `tree_edges` exactly if it leads from one of the given
/// nodes to one of its children.
proof fn lemma_tree_edges_members(s: Seq<Slot<Node>>, ids: Seq<NodeId>)
    ensures
        forall|e: Edge|
            tree_edges(s, ids).contains(e) <==> exists|i: int, j: int|
                0 <= i < ids.len() && 0 <= j < children_of(s, ids[i]).len() && e == (
                    ids[i] as u32,
                    #[trigger] children_of(s, ids[i])[j] as u32,
                ),
    decreases ids.len(),
{
    let es = tree_edges(s, ids);
    if ids.len() == 0 {
        assert forall|e: Edge| !es.contains(e) by {}
    } else {
        let front = ids.drop_last();
        let last = ids.last();
        let kids = children_of(s, last);
        let earlier = tree_edges(s, front);
        let own = child_edges(s, last, kids.len() as int);
        lemma_tree_edges_members(s, front);
        assert forall|e: Edge|
            es.contains(e) <==> exists|i: int, j: int|
                0 <= i < ids.len() && 0 <= j < children_of(s, ids[i]).len() && e == (
                    ids[i] as u32,
                    #[trigger] children_of(s, ids[i])[j] as u32,
                ) by {
            if es.contains(e) {
                let k = choose|k: int| 0 <= k < es.len() && es[k] == e;
                if k < earlier.len() {
                    assert(earlier[k] == e);
                    assert(earlier.contains(e));
                    let (i, j) = choose|i: int, j: int|
                        0 <= i < front.len() && 0 <= j < children_of(s, front[i]).len() && e == (
                            front[i] as u32,
                            #[trigger] children_of(s, front[i])[j] as u32,
                        );
                    assert(ids[i] == front[i]);
                    assert(0 <= i < ids.len() && 0 <= j < children_of(s, ids[i]).len() && e == (
                        ids[i] as u32,
                        children_of(s, ids[i])[j] as u32,
                    ));
                } else {
                    let j = k - earlier.len();
                    let i = ids.len() - 1;
                    assert(own[j] == e);
                    assert(0 <= i < ids.len() && 0 <= j < children_of(s, ids[i]).len() && e == (
                        ids[i] as u32,
                        children_of(s, ids[i])[j] as u32,
                    ));
                }
            }
            if exists|i: int, j: int|
                0 <= i < ids.len() && 0 <= j < children_of(s, ids[i]).len() && e == (
                    ids[i] as u32,
                    #[trigger] children_of(s, ids[i])[j] as u32,
                ) {
                let (i, j) = choose|i: int, j: int|
                    0 <= i < ids.len() && 0 <= j < children_of(s, ids[i]).len() && e == (
                        ids[i] as u32,
                        #[trigger] children_of(s, ids[i])[j] as u32,
                    );
                if i < front.len() {
                    assert(front[i] == ids[i]);
                    assert(0 <= i < front.len() && 0 <= j < children_of(s, front[i]).len() && e == (
                        front[i] as u32,
                        children_of(s, front[i])[j] as u32,
                    ));
                    assert(earlier.contains(e));
                    let k = choose|k: int| 0 <= k < earlier.len() && earlier[k] == e;
                    assert(es[k] == e);
                } else {
                    assert(own[j] == e);
                    assert(es[earlier.len() + j] == e);
                }
            }
        }
    }
}

/// How the types of two program points depend on each other.
#[derive(Debug, Clone, Copy, PartialEq, Eq)]
pub enum DependencyType {
    /// Both have the same type.
    Equal,
    /// The first has the element type of the second.
    In,
}

/// The sign a dependency is drawn with.
pub open spec fn dependency_text(d: DependencyType) -> Seq<char> {
    match d {
        DependencyType::Equal => "="@,
        DependencyType::In => "\u{2208}"@,
    }
}

impl DependencyType {
    /// The sign the dependency is drawn with.
    pub fn symbol(&self) -> (s: String)
        ensures
            s@ == dependency_text(*self),
    {
        match self {
            DependencyType::Equal => "=".to_owned(),
            DependencyType::In => "\u{2208}".to_owned(),
        }
    }
}

/// One obligation between two program points: the edge, and the tag it is
/// filed under, if it has one.
pub struct Dependency {
    pub edge: Edge,
    pub tag: Option<DependencyType>,
}

/// The obligation between `from` and `to`, with its tag.
pub open spec fn dependency(from: Vertex, to: Vertex, tag: Option<DependencyType>) -> Dependency {
    Dependency { edge: (from, to), tag }
}

/// The obligations a node at the vertex `v` gives rise to, in the order they
/// are recorded. A binding ties its initializer and its name to its declared
/// type; an array type and an array tie their elements to themselves; an
/// application is tied to the function it calls; the two sides of an
/// arithmetic operation are tied to each other, and the index of an indexing
/// operation to the array. The obligations of an operation carry no tag.
pub open spec fn node_dependencies(v: Vertex, node: NodeView) -> Seq<Dependency> {
    match node {
        NodeView::Let { id, exp_type, exp } => seq![
            dependency(exp as u32, exp_type as u32, Some(DependencyType::Equal)),
            dependency(id as u32, exp_type as u32, Some(DependencyType::Equal)),
        ],
        NodeView::ArrayType { value_type, .. } => seq![
            dependency(v, value_type as u32, Some(DependencyType::In)),
        ],
        NodeView::Array { elements } => Seq::new(
            elements.len(),
            |k: int| dependency(elements[k] as u32, v, Some(DependencyType::In)),
        ),
        NodeView::Apply { fn_name, .. } => seq![
            dependency(v, fn_name as u32, Some(DependencyType::Equal)),
        ],
        NodeView::BinOp { lhs, rhs, op_type } => match op_type {
            BinOpType::ArrIndex => seq![dependency(rhs as u32, lhs as u32, None)],
            _ => seq![
                dependency(rhs as u32, lhs as u32, None),
                dependency(lhs as u32, rhs as u32, None),
            ],
        },
        _ => Seq::empty(),
    }
}

/// The obligations of the nodes at the vertices `vs`, vertex by vertex. A
/// vertex that names no live node has none.
pub open spec fn dependencies(vs: Seq<Vertex>, s: Seq<Slot<Node>>) -> Seq<Dependency>
    decreases vs.len(),
{
    if vs.len() == 0 {
        Seq::empty()
    } else {
        dependencies(vs.drop_last(), s) + match lookup(s, vs.last() as int) {
            Some(node) => node_dependencies(vs.last(), node@),
            None => Seq::empty(),
        }
    }
}

/// The edges `es` after inserting `e`, which changes nothing if it is there.
pub open spec fn with_edge(es: Seq<Edge>, e: Edge) -> Seq<Edge> {
    if es.contains(e) {
        es
    } else {
        es.push(e)
    }
}

/// The edges `es` after inserting the edges of `ds`, one after the other.
pub open spec fn with_edges(es: Seq<Edge>, ds: Seq<Dependency>) -> Seq<Edge>
    decreases ds.len(),
{
    if ds.len() == 0 {
        es
    } else {
        with_edge(with_edges(es, ds.drop_last()), ds.last().edge)
    }
}

/// The tags `m` after filing `d`: a later tag of an edge replaces an earlier
/// one.
pub open spec fn with_tag(m: Map<Edge, DependencyType>, d: Dependency) -> Map<Edge, DependencyType> {
    match d.tag {
        Some(tag) => m.insert(d.edge, tag),
        None => m,
    }
}

/// The tags `m` after filing the tags of `ds`, one after the other.
pub open spec fn with_tags(m: Map<Edge, DependencyType>, ds: Seq<Dependency>) -> Map<
    Edge,
    DependencyType,
>
    decreases ds.len(),
{
    if ds.len() == 0 {
        m
    } else {
        with_tag(with_tags(m, ds.drop_last()), ds.last())
    }
}

/// Records one obligation.
fn add_dependency(
    graph: &mut Graph,
    tags: &mut GraphEdgeProperty<DependencyType>,
    from: Vertex,
    to: Vertex,
    tag: Option<DependencyType>,
)
    requires
        old(graph).wf(),
    ensures
        final(graph).wf(),
        final(graph).vertex_seq() == old(graph).vertex_seq(),
        final(graph).next_id() == old(graph).next_id(),
        final(graph).edge_seq() == with_edge(old(graph).edge_seq(), (from, to)),
        final(tags)@ == with_tag(old(tags)@, dependency(from, to, tag)),
{
    let e = graph.new_edge(from, to);
    match tag {
        Some(t) => {
            tags.insert(e, t);
        },
        None => {},
    }
}

/// The graph of type dependencies of the tree `t`, over the vertices of its
/// node graph `g`, and the tag of every tagged edge. The graph is ready for a
/// solver; solving is not part of this function.
pub fn gen_type_dependencies(g: &Graph, t: &Tree) -> (r: (Graph, GraphEdgeProperty<DependencyType>))
    requires
        g.wf(),
    ensures
        r.0.wf(),
        r.0.vertex_seq() == g.vertex_seq(),
        r.0.edge_seq() == with_edges(Seq::empty(), dependencies(g.vertex_seq(), t@)),
        r.1@ == with_tags(Map::empty(), dependencies(g.vertex_seq(), t@)),
{
    let mut type_dependencies: Graph = Graph::new();
    let mut dependency_types: GraphEdgeProperty<DependencyType> = GraphEdgeProperty::new();
    let ghost vs = g.vertex_seq();
    let ghost s = t@;
    // the same vertices
    let mut copy = VertexIterator::new(g);
    let ghost copied: int = 0;
    proof {
        assert(vs.take(0) =~= Seq::<Vertex>::empty());
        assert(vs.skip(0) =~= vs);
    }
    loop
        invariant
            g.wf(),
            vs == g.vertex_seq(),
            0 <= copied <= vs.len(),
            copy.remaining() == vs.skip(copied),
            type_dependencies.wf(),
            type_dependencies.vertex_seq() == vs.take(copied),
            type_dependencies.edge_seq() == Seq::<Edge>::empty(),
        ensures
            type_dependencies.wf(),
            type_dependencies.vertex_seq() == vs,
            type_dependencies.edge_seq() == Seq::<Edge>::empty(),
        decreases copy.remaining().len(),
    {
        match copy.next() {
            None => {
                proof {
                    assert(vs.take(copied) =~= vs);
                }
                break ;
            },
            Some(v) => {
                proof {
                    assert(v == vs[copied]);
                    assert(g.vertex_seq()[copied] < g.next_id());
                    assert(vs.skip(copied).drop_first() =~= vs.skip(copied + 1));
                    assert(vs.take(copied + 1) =~= vs.take(copied).push(v));
                    assert forall|j: int| 0 <= j < copied implies vs.take(copied)[j] != v by {}
                }
                type_dependencies.make_vertex(v);
                proof {
                    copied = copied + 1;
                }
            },
        }
    }
    // the edges
    let mut it = VertexIterator::new(g);
    let ghost seen: int = 0;
    let ghost found: Seq<Dependency> = Seq::empty();
    proof {
        assert(vs.skip(0) =~= vs);
        assert(vs.take(0) =~= Seq::<Vertex>::empty());
    }
    loop
        invariant
            s == t@,
            vs == g.vertex_seq(),
            0 <= seen <= vs.len(),
            it.remaining() == vs.skip(seen),
            found == dependencies(vs.take(seen), s),
            type_dependencies.wf(),
            type_dependencies.vertex_seq() == vs,
            type_dependencies.edge_seq() == with_edges(Seq::empty(), found),
            dependency_types@ == with_tags(Map::empty(), found),
        ensures
            found == dependencies(vs, s),
            type_dependencies.wf(),
            type_dependencies.vertex_seq() == vs,
            type_dependencies.edge_seq() == with_edges(Seq::empty(), found),
            dependency_types@ == with_tags(Map::empty(), found),
        decreases it.remaining().len(),
    {
        match it.next() {
            None => {
                proof {
                    assert(vs.take(seen) =~= vs);
                }
                break ;
            },
            Some(v) => {
                let ghost base = found;
                proof {
                    assert(v == vs[seen]);
                    assert(vs.skip(seen).drop_first() =~= vs.skip(seen + 1));
                    assert(vs.take(seen + 1).drop_last() =~= vs.take(seen));
                    assert(base + Seq::<Dependency>::empty() =~= base);
                }
                let id = v as usize;
                if id < t.len() {
                    match t.get_node_value(id) {
                        Some(Node::Let(n)) => {
                            let exp = #[verifier::truncate] (n.exp as u32);
                            let exp_type = #[verifier::truncate] (n.exp_type as u32);
                            let name = #[verifier::truncate] (n.id as u32);
                            add_dependency(
                                &mut type_dependencies,
                                &mut dependency_types,
                                exp,
                                exp_type,
                                Some(DependencyType::Equal),
                            );
                            proof {
                                let d1 = dependency(exp, exp_type, Some(DependencyType::Equal));
                                assert(base.push(d1).drop_last() =~= base);
                                found = base.push(d1);
                                assert(type_dependencies.edge_seq() == with_edges(Seq::empty(), found));
                                assert(dependency_types@ == with_tags(Map::empty(), found));
                            }
                            add_dependency(
                                &mut type_dependencies,
                                &mut dependency_types,
                                name,
                                exp_type,
                                Some(DependencyType::Equal),
                            );
                            proof {
                                let d1 = dependency(exp, exp_type, Some(DependencyType::Equal));
                                let d2 = dependency(name, exp_type, Some(DependencyType::Equal));
                                assert(base.push(d1).push(d2).drop_last() =~= base.push(d1));
                                found = base.push(d1).push(d2);
                                assert(found =~= base + seq![d1, d2]);
                            }
                        },
                        Some(Node::ArrayType(n)) => {
                            let value_type = #[verifier::truncate] (n.value_type as u32);
                            add_dependency(
                                &mut type_dependencies,
                                &mut dependency_types,
                                v,
                                value_type,
                                Some(DependencyType::In),
                            );
                            proof {
                                let d1 = dependency(v, value_type, Some(DependencyType::In));
                                assert(base.push(d1).drop_last() =~= base);
                                found = base.push(d1);
                                assert(found =~= base + seq![d1]);
                            }
                        },
                        Some(Node::Array(n)) => {
                            let ghost own = node_dependencies(v, Node::Array(*n)@);
                            let mut k: usize = 0;
                            proof {
                                assert(base + own.take(0) =~= base);
                            }
                            while k < n.elements.len()
                                invariant
                                    k <= n.elements.len(),
                                    own == node_dependencies(v, Node::Array(*n)@),
                                    found == base + own.take(k as int),
                                    type_dependencies.wf(),
                                    type_dependencies.vertex_seq() == vs,
                                    type_dependencies.edge_seq() == with_edges(Seq::empty(), found),
                                    dependency_types@ == with_tags(Map::empty(), found),
                                decreases n.elements.len() - k,
                            {
                                let c = #[verifier::truncate] (n.elements[k] as u32);
                                add_dependency(
                                    &mut type_dependencies,
                                    &mut dependency_types,
                                    c,
                                    v,
                                    Some(DependencyType::In),
                                );
                                proof {
                                    let d = dependency(c, v, Some(DependencyType::In));
                                    assert(own[k as int] == d);
                                    assert(found.push(d).drop_last() =~= found);
                                    assert(found.push(d) =~= base + own.take(k + 1));
                                    assert(type_dependencies.edge_seq() == with_edges(
                                        Seq::empty(),
                                        found.push(d),
                                    ));
                                    assert(dependency_types@ == with_tags(Map::empty(), found.push(d)));
                                    found = found.push(d);
                                }
                                k += 1;
                            }
                            proof {
                                assert(own.take(own.len() as int) =~= own);
                            }
                        },
                        Some(Node::Apply(n)) => {
                            let callee = #[verifier::truncate] (n.fn_name as u32);
                            add_dependency(
                                &mut type_dependencies,
                                &mut dependency_types,
                                v,
                                callee,
                                Some(DependencyType::Equal),
                            );
                            proof {
                                let d1 = dependency(v, callee, Some(DependencyType::Equal));
                                assert(base.push(d1).drop_last() =~= base);
                                found = base.push(d1);
                                assert(found =~= base + seq![d1]);
                            }
                        },
                        Some(Node::BinOp(n)) => {
                            let lhs = #[verifier::truncate] (n.lhs as u32);
                            let rhs = #[verifier::truncate] (n.rhs as u32);
                            add_dependency(&mut type_dependencies, &mut dependency_types, rhs, lhs, None);
                            proof {
                                let d1 = dependency(rhs, lhs, None);
                                assert(base.push(d1).drop_last() =~= base);
                                found = base.push(d1);
                                assert(found =~= base + seq![d1]);
                                assert(type_dependencies.edge_seq() == with_edges(Seq::empty(), found));
                                assert(dependency_types@ == with_tags(Map::empty(), found));
                            }
                            match n.op_type {
                                BinOpType::ArrIndex => {},
                                _ => {
                                    add_dependency(
                                        &mut type_dependencies,
                                        &mut dependency_types,
                                        lhs,
                                        rhs,
                                        None,
                                    );
                                    proof {
                                        let d1 = dependency(rhs, lhs, None);
                                        let d2 = dependency(lhs, rhs, None);
                                        assert(base.push(d1).push(d2).drop_last() =~= base.push(d1));
                                        found = base.push(d1).push(d2);
                                        assert(found =~= base + seq![d1, d2]);
                                    }
                                },
                            }
                        },
                        _ => {},
                    }
                }
                proof {
                    seen = seen + 1;
                }
            },
        }
    }
    (type_dependencies, dependency_types)
}

/// An edge is in the dependency graph exactly if one of the obligations
/// asks for it, and its tag is that of the last obligation that tags it.
pub proof fn lemma_dependency_edges(es: Seq<Edge>, ds: Seq<Dependency>, e: Edge)
    ensures
        with_edges(es, ds).contains(e) <==> es.contains(e) || exists|k: int|
            0 <= k < ds.len() && (#[trigger] ds[k]).edge == e,
    decreases ds.len(),
{
    if ds.len() > 0 {
        let front = ds.drop_last();
        let prev = with_edges(es, front);
        lemma_dependency_edges(es, front, e);
        if prev.contains(ds.last().edge) {
        } else {
            let next = prev.push(ds.last().edge);
            if next.contains(e) {
                let j = choose|j: int| 0 <= j < next.len() && next[j] == e;
                if j < prev.len() {
                    assert(prev[j] == e);
                }
            }
            if prev.contains(e) {
                let j = choose|j: int| 0 <= j < prev.len() && prev[j] == e;
                assert(next[j] == e);
            }
            if ds.last().edge == e {
                assert(next[prev.len() as int] == e);
            }
        }
        if with_edges(es, ds).contains(e) && !es.contains(e) {
            if prev.contains(e) {
                let k = choose|k: int| 0 <= k < front.len() && (#[trigger] front[k]).edge == e;
                assert(ds[k].edge == e);
            } else {
                assert(ds[ds.len() - 1].edge == e);
            }
        }
        if exists|k: int| 0 <= k < ds.len() && (#[trigger] ds[k]).edge == e {
            let k = choose|k: int| 0 <= k < ds.len() && (#[trigger] ds[k]).edge == e;
            if k < front.len() {
                assert(front[k].edge == e);
            }
        }
    }
}

/// A scope is a vertex of the scope graph.
pub type Scope = u32;

/// The node at a vertex.
pub open spec fn node_at(s: Seq<Slot<Node>>, v: Vertex) -> NodeView {
    s[v as int].value@
}

/// The vertex of the parent of the node at a vertex.
pub open spec fn parent_vertex(s: Seq<Slot<Node>>, v: Vertex) -> Vertex {
    s[v as int].parent as u32
}

/// Files, functions and blocks each open a scope of their own.
pub open spec fn opens_scope(n: NodeView) -> bool {
    n is File || n is GaleFunction || n is NativeFunction || n is Sequence
}

/// The scope of a function or of a block lies inside the scope around it. A
/// file's scope is the outermost.
pub open spec fn nests(n: NodeView) -> bool {
    n is GaleFunction || n is NativeFunction || n is Sequence
}

/// `g` and `scopes` are the scope graph of the tree `s`. Exactly the nodes
/// that hang together with the root have a scope. A node that opens a scope
/// has one of its own, any other node has the scope of its parent. The
/// vertices of the graph are the scopes that were opened, numbered from 0,
/// and its edges lead from the scope of each function and each block to the
/// scope around it.
pub open spec fn is_scope_graph(s: Seq<Slot<Node>>, g: Graph, scopes: Map<Vertex, Scope>) -> bool {
    &&& forall|v: Vertex| #[trigger] scopes.contains_key(v) <==> reachable(s, v as int)
    &&& forall|a: Vertex, b: Vertex|
        #![trigger scopes.contains_key(a), scopes.contains_key(b)]
        scopes.contains_key(a) && scopes.contains_key(b) && opens_scope(node_at(s, a))
            && opens_scope(node_at(s, b)) && a != b ==> scopes[a] != scopes[b]
    &&& forall|v: Vertex| #[trigger]
        scopes.contains_key(v) && !opens_scope(node_at(s, v)) ==> scopes[v] == scopes[parent_vertex(
            s,
            v,
        )]
    &&& forall|x: Vertex| #[trigger] g.vertices().contains(x) <==> x < g.next_id()
    &&& forall|x: Vertex| #[trigger]
        g.vertices().contains(x) <==> exists|v: Vertex| #[trigger]
            scopes.contains_key(v) && opens_scope(node_at(s, v)) && scopes[v] == x
    &&& forall|e: Edge| #[trigger]
        g.edges().contains(e) <==> exists|v: Vertex| #[trigger]
            scopes.contains_key(v) && nests(node_at(s, v)) && e == (
                scopes[v],
                scopes[parent_vertex(s, v)],
            )
}

/// What the walk that builds the scope graph has found so far.
pub struct ScopeWalk {
    pub visited: Set<NodeId>,
    pub scopes: Map<Vertex, Scope>,
    pub vertices: Set<Vertex>,
    pub edges: Set<Edge>,
    pub next: Vertex,
    /// The node that opened each scope.
    pub owners: Map<Scope, Vertex>,
    /// The node that each edge was made for.
    pub nesters: Map<Edge, Vertex>,
}

/// What holds of the walk between two steps.
pub closed spec fn scope_inv(s: Seq<Slot<Node>>, w: ScopeWalk) -> bool {
    &&& parents_precede(s)
    &&& s.len() <= u32::MAX
    &&& reachable(s, 0) ==> node_at(s, 0) is File
    &&& forall|n: NodeId| #[trigger] w.visited.contains(n) ==> reachable(s, n as int)
    &&& forall|v: Vertex| #[trigger] w.scopes.contains_key(v) <==> w.visited.contains(v as NodeId)
    &&& forall|v: Vertex, u: Vertex|
        #![trigger w.scopes.contains_key(v), w.scopes.contains_key(u)]
        w.scopes.contains_key(v) && v != 0 && !w.scopes.contains_key(u) ==> parent_vertex(s, v) != u
    &&& forall|v: Vertex| #[trigger] w.scopes.contains_key(v) ==> w.scopes[v] < w.next
    &&& forall|v: Vertex| #[trigger]
        w.scopes.contains_key(v) && opens_scope(node_at(s, v)) ==> w.owners[w.scopes[v]] == v
    &&& forall|v: Vertex| #[trigger]
        w.scopes.contains_key(v) && !opens_scope(node_at(s, v)) ==> w.scopes[v]
            == w.scopes[parent_vertex(s, v)]
    &&& forall|x: Vertex| #[trigger] w.vertices.contains(x) <==> x < w.next
    &&& forall|x: Vertex|
        x < w.next ==> w.scopes.contains_key(#[trigger] w.owners[x]) && opens_scope(
            node_at(s, w.owners[x]),
        ) && w.scopes[w.owners[x]] == x
    &&& forall|v: Vertex| #[trigger]
        w.scopes.contains_key(v) && nests(node_at(s, v)) ==> w.edges.contains(
            (w.scopes[v], w.scopes[parent_vertex(s, v)]),
        )
    &&& forall|e: Edge| #[trigger]
        w.edges.contains(e) ==> w.scopes.contains_key(w.nesters[e]) && nests(
            node_at(s, w.nesters[e]),
        ) && e == (w.scopes[w.nesters[e]], w.scopes[parent_vertex(s, w.nesters[e])])
}

/// The walk after a node that opens a scope was visited. A function or a
/// block links its scope to the one around it.
pub open spec fn walk_opened(s: Seq<Slot<Node>>, w: ScopeWalk, v: Vertex) -> ScopeWalk {
    let e = (w.next, w.scopes[parent_vertex(s, v)]);
    ScopeWalk {
        visited: w.visited.insert(v as NodeId),
        scopes: w.scopes.insert(v, w.next),
        vertices: w.vertices.insert(w.next),
        edges: if nests(node_at(s, v)) {
            w.edges.insert(e)
        } else {
            w.edges
        },
        next: (w.next + 1) as u32,
        owners: w.owners.insert(w.next, v),
        nesters: w.nesters.insert(e, v),
    }
}

/// The walk after a node that opens no scope was visited.
pub open spec fn walk_shared(s: Seq<Slot<Node>>, w: ScopeWalk, v: Vertex) -> ScopeWalk {
    ScopeWalk {
        visited: w.visited.insert(v as NodeId),
        scopes: w.scopes.insert(v, w.scopes[parent_vertex(s, v)]),
        ..w
    }
}

proof fn lemma_walk_starts(s: Seq<Slot<Node>>)
    requires
        parents_precede(s),
        s.len() <= u32::MAX,
        reachable(s, 0) ==> node_at(s, 0) is File,
    ensures
        scope_inv(
            s,
            ScopeWalk {
                visited: Set::empty(),
                scopes: Map::empty(),
                vertices: Set::empty(),
                edges: Set::empty(),
                next: 0,
                owners: Map::empty(),
                nesters: Map::empty(),
            },
        ),
{
}

/// A node that was not visited yet and whose parent was, unless it is the
/// root.
pub open spec fn comes_next(s: Seq<Slot<Node>>, w: ScopeWalk, v: Vertex) -> bool {
    &&& reachable(s, v as int)
    &&& !w.visited.contains(v as NodeId)
    &&& v != 0 ==> w.visited.contains(s[v as int].parent)
}

proof fn lemma_walk_opened(s: Seq<Slot<Node>>, w: ScopeWalk, v: Vertex)
    requires
        scope_inv(s, w),
        comes_next(s, w, v),
        opens_scope(node_at(s, v)),
        w.next < u32::MAX,
    ensures
        scope_inv(s, walk_opened(s, w, v)),
        nests(node_at(s, v)) ==> w.scopes.contains_key(parent_vertex(s, v)),
        !w.edges.contains((w.next, w.scopes[parent_vertex(s, v)])),
{
    let n = walk_opened(s, w, v);
    let e = (w.next, w.scopes[parent_vertex(s, v)]);
    assert(!w.scopes.contains_key(v));
    if v != 0 {
        assert(s[v as int].parent < v);
        assert(w.scopes.contains_key(parent_vertex(s, v)));
    }
    if w.edges.contains(e) {
        assert(w.scopes.contains_key(w.nesters[e]));
    }
    assert forall|k: Vertex| #[trigger] n.scopes.contains_key(k) <==> n.visited.contains(
        k as NodeId,
    ) by {
        assert(w.scopes.contains_key(k) <==> w.visited.contains(k as NodeId));
    }
    assert forall|m: NodeId| #[trigger] n.visited.contains(m) implies reachable(s, m as int) by {
        if m != v as NodeId {
            assert(w.visited.contains(m));
        }
    }
    assert forall|k: Vertex, u: Vertex|
        #![trigger n.scopes.contains_key(k), n.scopes.contains_key(u)]
        n.scopes.contains_key(k) && k != 0 && !n.scopes.contains_key(u) implies parent_vertex(s, k)
        != u by {
        assert(!w.scopes.contains_key(u));
        if k != v {
            assert(w.scopes.contains_key(k));
        }
    }
    assert forall|k: Vertex| #[trigger] n.scopes.contains_key(k) implies n.scopes[k] < n.next by {
        if k != v {
            assert(w.scopes.contains_key(k));
        }
    }
    assert forall|k: Vertex| #[trigger]
        n.scopes.contains_key(k) && opens_scope(node_at(s, k)) implies n.owners[n.scopes[k]] == k by {
        if k != v {
            assert(w.scopes.contains_key(k));
        }
    }
    assert forall|k: Vertex| #[trigger]
        n.scopes.contains_key(k) && !opens_scope(node_at(s, k)) implies n.scopes[k]
        == n.scopes[parent_vertex(s, k)] by {
        assert(k != v);
        assert(w.scopes.contains_key(k));
        assert(k != 0);
        assert(w.scopes.contains_key(parent_vertex(s, k)));
    }
    assert forall|x: Vertex|
        x < n.next implies n.scopes.contains_key(#[trigger] n.owners[x]) && opens_scope(
        node_at(s, n.owners[x]),
    ) && n.scopes[n.owners[x]] == x by {
        if x < w.next {
            assert(w.scopes.contains_key(w.owners[x]));
        }
    }
    assert forall|k: Vertex| #[trigger]
        n.scopes.contains_key(k) && nests(node_at(s, k)) implies n.edges.contains(
        (n.scopes[k], n.scopes[parent_vertex(s, k)]),
    ) by {
        if k != v {
            assert(w.scopes.contains_key(k));
            assert(k != 0);
            assert(w.scopes.contains_key(parent_vertex(s, k)));
            assert(w.edges.contains((w.scopes[k], w.scopes[parent_vertex(s, k)])));
        }
    }
    assert forall|f: Edge| #[trigger]
        n.edges.contains(f) implies n.scopes.contains_key(n.nesters[f]) && nests(
        node_at(s, n.nesters[f]),
    ) && f == (n.scopes[n.nesters[f]], n.scopes[parent_vertex(s, n.nesters[f])]) by {
        if f != e {
            assert(w.edges.contains(f));
            let k = w.nesters[f];
            assert(w.scopes.contains_key(k));
            assert(k != v);
            assert(k != 0);
            assert(w.scopes.contains_key(parent_vertex(s, k)));
        }
    }
}

proof fn lemma_walk_shared(s: Seq<Slot<Node>>, w: ScopeWalk, v: Vertex)
    requires
        scope_inv(s, w),
        comes_next(s, w, v),
        !opens_scope(node_at(s, v)),
    ensures
        scope_inv(s, walk_shared(s, w, v)),
        w.scopes.contains_key(parent_vertex(s, v)),
{
    let n = walk_shared(s, w, v);
    assert(!w.scopes.contains_key(v));
    assert(v != 0);
    assert(s[v as int].parent < v);
    assert(w.scopes.contains_key(parent_vertex(s, v)));
    assert forall|k: Vertex| #[trigger] n.scopes.contains_key(k) <==> n.visited.contains(
        k as NodeId,
    ) by {
        assert(w.scopes.contains_key(k) <==> w.visited.contains(k as NodeId));
    }
    assert forall|m: NodeId| #[trigger] n.visited.contains(m) implies reachable(s, m as int) by {
        if m != v as NodeId {
            assert(w.visited.contains(m));
        }
    }
    assert forall|k: Vertex, u: Vertex|
        #![trigger n.scopes.contains_key(k), n.scopes.contains_key(u)]
        n.scopes.contains_key(k) && k != 0 && !n.scopes.contains_key(u) implies parent_vertex(s, k)
        != u by {
        assert(!w.scopes.contains_key(u));
        if k != v {
            assert(w.scopes.contains_key(k));
        }
    }
    assert forall|k: Vertex| #[trigger] n.scopes.contains_key(k) implies n.scopes[k] < n.next by {
        if k != v {
            assert(w.scopes.contains_key(k));
        }
    }
    assert forall|k: Vertex| #[trigger]
        n.scopes.contains_key(k) && opens_scope(node_at(s, k)) implies n.owners[n.scopes[k]] == k by {
        assert(k != v);
        assert(w.scopes.contains_key(k));
    }
    assert forall|k: Vertex| #[trigger]
        n.scopes.contains_key(k) && !opens_scope(node_at(s, k)) implies n.scopes[k]
        == n.scopes[parent_vertex(s, k)] by {
        if k != v {
            assert(w.scopes.contains_key(k));
            assert(k != 0);
            assert(w.scopes.contains_key(parent_vertex(s, k)));
        }
    }
    assert forall|x: Vertex|
        x < n.next implies n.scopes.contains_key(#[trigger] n.owners[x]) && opens_scope(
        node_at(s, n.owners[x]),
    ) && n.scopes[n.owners[x]] == x by {
        assert(w.scopes.contains_key(w.owners[x]));
    }
    assert forall|k: Vertex| #[trigger]
        n.scopes.contains_key(k) && nests(node_at(s, k)) implies n.edges.contains(
        (n.scopes[k], n.scopes[parent_vertex(s, k)]),
    ) by {
        assert(k != v);
        assert(w.scopes.contains_key(k));
        assert(k != 0);
        assert(w.scopes.contains_key(parent_vertex(s, k)));
    }
    assert forall|f: Edge| #[trigger]
        n.edges.contains(f) implies n.scopes.contains_key(n.nesters[f]) && nests(
        node_at(s, n.nesters[f]),
    ) && f == (n.scopes[n.nesters[f]], n.scopes[parent_vertex(s, n.nesters[f])]) by {
        let k = w.nesters[f];
        assert(w.scopes.contains_key(k));
        assert(k != v);
        assert(k != 0);
        assert(w.scopes.contains_key(parent_vertex(s, k)));
    }
}

/// Once every node that hangs together with the root was visited, the walk
/// has built the scope graph.
proof fn lemma_walk_ends(s: Seq<Slot<Node>>, w: ScopeWalk, g: Graph)
    requires
        scope_inv(s, w),
        forall|n: NodeId| w.visited.contains(n) <==> reachable(s, n as int),
        g.vertices() == w.vertices,
        g.edges() == w.edges,
        g.next_id() == w.next,
    ensures
        is_scope_graph(s, g, w.scopes),
{
    let scopes = w.scopes;
    assert forall|v: Vertex| #[trigger] scopes.contains_key(v) <==> reachable(s, v as int) by {
        assert(scopes.contains_key(v) <==> w.visited.contains(v as NodeId));
    }
    assert forall|a: Vertex, b: Vertex|
        #![trigger scopes.contains_key(a), scopes.contains_key(b)]
        scopes.contains_key(a) && scopes.contains_key(b) && opens_scope(node_at(s, a)) && opens_scope(
            node_at(s, b),
        ) && a != b implies scopes[a] != scopes[b] by {
        assert(w.owners[scopes[a]] == a);
        assert(w.owners[scopes[b]] == b);
    }
    assert forall|x: Vertex| #[trigger]
        g.vertices().contains(x) <==> exists|v: Vertex| #[trigger]
            scopes.contains_key(v) && opens_scope(node_at(s, v)) && scopes[v] == x by {
        if g.vertices().contains(x) {
            assert(x < w.next);
            let v = w.owners[x];
            assert(scopes.contains_key(v) && opens_scope(node_at(s, v)) && scopes[v] == x);
        }
    }
    assert forall|e: Edge| #[trigger]
        g.edges().contains(e) <==> exists|v: Vertex| #[trigger]
            scopes.contains_key(v) && nests(node_at(s, v)) && e == (
                scopes[v],
                scopes[parent_vertex(s, v)],
            ) by {
        if g.edges().contains(e) {
            let v = w.nesters[e];
            assert(scopes.contains_key(v) && nests(node_at(s, v)) && e == (
                scopes[v],
                scopes[parent_vertex(s, v)],
            ));
        }
    }
}

/// The graph of lexical scopes of the tree `t`, and the scope of every node.
/// The walk goes from parents to children, so that a node finds the scope of
/// its parent.
pub fn gen_scope_graph(t: &Tree) -> (r: (Graph, GraphVertexProperty<Scope>))
    requires
        t.wf(),
        t@.len() <= u32::MAX,
        reachable(t@, 0) ==> t@[0].value is File,
    ensures
        r.0.wf(),
        is_scope_graph(t@, r.0, r.1@),
{
    let mut scope_graph = Graph::new();
    let mut node_scopes: GraphVertexProperty<Scope> = GraphVertexProperty::new();
    let mut it = PreOrderTreeIterator::new(t);
    let ghost s = t@;
    let ghost w = ScopeWalk {
        visited: Set::empty(),
        scopes: Map::empty(),
        vertices: Set::empty(),
        edges: Set::empty(),
        next: 0,
        owners: Map::empty(),
        nesters: Map::empty(),
    };
    proof {
        lemma_walk_starts(s);
        assert(scope_graph.vertices() =~= w.vertices);
        assert(scope_graph.edges() =~= w.edges);
    }
    loop
        invariant
            s == t@,
            it.wf(),
            it.tree() == *t,
            it.visited() == w.visited,
            scope_inv(s, w),
            scope_graph.wf(),
            scope_graph.vertices() == w.vertices,
            scope_graph.edges() == w.edges,
            scope_graph.next_id() == w.next,
            node_scopes@ == w.scopes,
            w.next + it.unvisited() <= s.len(),
            s.len() <= u32::MAX,
        ensures
            scope_graph.wf(),
            is_scope_graph(s, scope_graph, node_scopes@),
        decreases it.unvisited(),
    {
        match it.next() {
            None => {
                proof {
                    lemma_walk_ends(s, w, scope_graph);
                }
                break ;
            },
            Some((id, n)) => {
                let v = id as u32;
                let parent = t.get_parent(id) as u32;
                proof {
                    assert(reachable(s, id as int));
                    assert(s[id as int].value == *n);
                    assert(comes_next(s, w, v));
                }
                match n {
                    Node::Function(_) | Node::Sequence(_) => {
                        proof {
                            lemma_walk_opened(s, w, v);
                        }
                        let scope = scope_graph.new_vertex();
                        match node_scopes.get(parent) {
                            Some(outer) => {
                                let outer_scope = *outer;
                                scope_graph.new_edge(scope, outer_scope);
                            },
                            None => {},
                        }
                        node_scopes.insert(v, scope);
                        proof {
                            w = walk_opened(s, w, v);
                            assert(scope_graph.vertices() =~= w.vertices);
                            assert(scope_graph.edges() =~= w.edges);
                        }
                    },
                    Node::File(_) => {
                        proof {
                            lemma_walk_opened(s, w, v);
                        }
                        let scope = scope_graph.new_vertex();
                        node_scopes.insert(v, scope);
                        proof {
                            w = walk_opened(s, w, v);
                            assert(scope_graph.vertices() =~= w.vertices);
                            assert(scope_graph.edges() =~= w.edges);
                        }
                    },
                    _ => {
                        proof {
                            lemma_walk_shared(s, w, v);
                        }
                        match node_scopes.get(parent) {
                            Some(outer) => {
                                let outer_scope = *outer;
                                node_scopes.insert(v, outer_scope);
                            },
                            None => {},
                        }
                        proof {
                            w = walk_shared(s, w, v);
                        }
                    },
                }
            },
        }
    }
    (scope_graph, node_scopes)
}

/// Resolves the type of every vertex from the dependencies between them.
/// The resolution is left open: no vertex is given a type.
pub fn solve_type_dependencies(g: &Graph, e: &GraphEdgeProperty<DependencyType>) -> (solved:
    GraphVertexProperty<Type>)
    ensures
        solved@ == Map::<Vertex, Type>::empty(),
{
    GraphVertexProperty::new()
}

} // verus!
