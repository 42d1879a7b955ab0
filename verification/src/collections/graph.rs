//! A directed graph over integer vertices, with side tables that attach a
//! property to a vertex or to an edge. Vertices and edges are sets: inserting
//! one twice changes nothing. Both are kept in the order of first insertion,
//! so that walking them is repeatable.
use std::collections::HashMap;
use vstd::prelude::*;
use vstd::std_specs::hash::*;

verus! {

/// A vertex is a number.
pub type Vertex = u32;

/// An edge leads from its first vertex to its second.
pub type Edge = (u32, u32);

/// A set of vertices, a set of edges between numbers, and the number of the
/// next vertex to allocate.
#[derive(Debug)]
pub struct Graph {
    vertices: Vec<Vertex>,
    edges: Vec<Edge>,
    next_vertex: Vertex,
}

impl Graph {
    /// The vertices in the order of their first insertion.
    pub closed spec fn vertex_seq(&self) -> Seq<Vertex> {
        self.vertices@
    }

    /// The edges in the order of their first insertion.
    pub closed spec fn edge_seq(&self) -> Seq<Edge> {
        self.edges@
    }

    /// The vertex that `new_vertex` hands out next.
    pub closed spec fn next_id(&self) -> Vertex {
        self.next_vertex
    }

    /// The vertices as a set.
    pub open spec fn vertices(&self) -> Set<Vertex> {
        self.vertex_seq().to_set()
    }

    /// The edges as a set.
    pub open spec fn edges(&self) -> Set<Edge> {
        self.edge_seq().to_set()
    }

    /// Nothing is stored twice, and the allocator is past every vertex.
    pub open spec fn wf(&self) -> bool {
        &&& self.vertex_seq().no_duplicates()
        &&& self.edge_seq().no_duplicates()
        &&& forall|i: int|
            0 <= i < self.vertex_seq().len() ==> #[trigger] self.vertex_seq()[i] < self.next_id()
    }

    /// A graph without vertices and edges. It allocates from 0.
    pub fn new() -> (g: Graph)
        ensures
            g.wf(),
            g.vertex_seq() == Seq::<Vertex>::empty(),
            g.edge_seq() == Seq::<Edge>::empty(),
            g.next_id() == 0,
    {
        Graph { vertices: Vec::new(), edges: Vec::new(), next_vertex: 0 }
    }

    /// The vertex that `new_vertex` hands out next.
    pub fn next_vertex(&self) -> (v: Vertex)
        ensures
            v == self.next_id(),
    {
        self.next_vertex
    }

    /// Allocates a vertex that the graph has never held.
    pub fn new_vertex(&mut self) -> (v: Vertex)
        requires
            old(self).wf(),
            old(self).next_id() < u32::MAX,
        ensures
            final(self).wf(),
            v == old(self).next_id(),
            !old(self).vertices().contains(v),
            final(self).next_id() == v + 1,
            final(self).vertex_seq() == old(self).vertex_seq().push(v),
            final(self).vertices() == old(self).vertices().insert(v),
            final(self).edge_seq() == old(self).edge_seq(),
    {
        let v = self.next_vertex;
        proof {
            if self.vertices@.contains(v) {
                let i = choose|i: int| 0 <= i < self.vertices@.len() && self.vertices@[i] == v;
                assert(self.vertex_seq()[i] < self.next_id());
            }
        }
        self.vertices.push(v);
        self.next_vertex += 1;
        proof {
            old(self).vertices@.lemma_push_to_set_commute(v);
        }
        v
    }

    /// Inserts the vertex `v` and moves the allocator past it. Tells whether
    /// `v` was new.
    pub fn make_vertex(&mut self, v: Vertex) -> (fresh: bool)
        requires
            old(self).wf(),
            v < u32::MAX,
        ensures
            final(self).wf(),
            fresh == !old(self).vertices().contains(v),
            final(self).vertex_seq() == if fresh {
                old(self).vertex_seq().push(v)
            } else {
                old(self).vertex_seq()
            },
            final(self).vertices() == old(self).vertices().insert(v),
            final(self).next_id() == if v >= old(self).next_id() {
                (v + 1) as u32
            } else {
                old(self).next_id()
            },
            final(self).edge_seq() == old(self).edge_seq(),
    {
        if v >= self.next_vertex {
            self.next_vertex = v + 1;
        }
        let fresh = !contains_vertex(&self.vertices, v);
        if fresh {
            self.vertices.push(v);
            proof {
                old(self).vertices@.lemma_push_to_set_commute(v);
            }
        } else {
            assert(self.vertices@.to_set().insert(v) =~= self.vertices@.to_set());
        }
        fresh
    }

    /// Removes the vertex `v`. Edges that mention it stay.
    pub fn delete_vertex(&mut self, v: Vertex)
        requires
            old(self).wf(),
        ensures
            final(self).wf(),
            final(self).vertex_seq() == old(self).vertex_seq().filter(|x: Vertex| x != v),
            final(self).vertices() == old(self).vertices().remove(v),
            final(self).next_id() == old(self).next_id(),
            final(self).edge_seq() == old(self).edge_seq(),
    {
        let ghost before = self.vertices@;
        let ghost keep = |x: Vertex| x != v;
        let mut kept: Vec<Vertex> = Vec::new();
        let mut i: usize = 0;
        proof {
            reveal(Seq::filter);
            assert(before.subrange(0, 0) =~= Seq::<Vertex>::empty());
        }
        while i < self.vertices.len()
            invariant
                i <= self.vertices@.len(),
                self.vertices@ == before,
                keep == |x: Vertex| x != v,
                kept@ == before.subrange(0, i as int).filter(keep),
            decreases self.vertices@.len() - i,
        {
            let x = self.vertices[i];
            proof {
                before.subrange(0, i as int).lemma_filter_push(x, keep);
                assert(before.subrange(0, i as int).push(x) =~= before.subrange(0, i + 1));
            }
            if x != v {
                kept.push(x);
            }
            i += 1;
        }
        self.vertices = kept;
        proof {
            assert(before.subrange(0, before.len() as int) =~= before);
            lemma_filter_members(before, keep);
            assert(self.vertices@.to_set() =~= before.to_set().remove(v));
            assert forall|j: int| 0 <= j < self.vertices@.len() implies #[trigger] self.vertices@[j]
                < self.next_vertex by {
                let x = self.vertices@[j];
                assert(self.vertices@.contains(x));
                let k = choose|k: int| 0 <= k < before.len() && before[k] == x;
                assert(old(self).vertex_seq()[k] < old(self).next_id());
            }
        }
    }

    /// Inserts the edge from `a` to `b`, whether or not the two are vertices
    /// of the graph, and returns it.
    pub fn new_edge(&mut self, a: Vertex, b: Vertex) -> (e: Edge)
        requires
            old(self).wf(),
        ensures
            final(self).wf(),
            e == (a, b),
            final(self).edge_seq() == if old(self).edges().contains(e) {
                old(self).edge_seq()
            } else {
                old(self).edge_seq().push(e)
            },
            final(self).edges() == old(self).edges().insert(e),
            final(self).vertex_seq() == old(self).vertex_seq(),
            final(self).next_id() == old(self).next_id(),
    {
        let e = (a, b);
        if !contains_edge(&self.edges, e) {
            self.edges.push(e);
            proof {
                old(self).edges@.lemma_push_to_set_commute(e);
            }
        } else {
            assert(self.edges@.to_set().insert(e) =~= self.edges@.to_set());
        }
        e
    }

    /// Tells whether `v` is a vertex of the graph.
    pub fn has_vertex(&self, v: Vertex) -> (r: bool)
        ensures
            r == self.vertices().contains(v),
    {
        contains_vertex(&self.vertices, v)
    }

    /// Tells whether `e` is an edge of the graph.
    pub fn has_edge(&self, e: Edge) -> (r: bool)
        ensures
            r == self.edges().contains(e),
    {
        contains_edge(&self.edges, e)
    }

    /// How many vertices the graph has.
    pub fn vertex_count(&self) -> (n: usize)
        requires
            self.wf(),
        ensures
            n == self.vertices().len(),
            n == self.vertex_seq().len(),
    {
        proof {
            self.vertices@.unique_seq_to_set();
        }
        self.vertices.len()
    }

    /// How many edges the graph has.
    pub fn edge_count(&self) -> (n: usize)
        requires
            self.wf(),
        ensures
            n == self.edges().len(),
            n == self.edge_seq().len(),
    {
        proof {
            self.edges@.unique_seq_to_set();
        }
        self.edges.len()
    }
}

fn contains_vertex(vs: &Vec<Vertex>, v: Vertex) -> (found: bool)
    ensures
        found == vs@.contains(v),
{
    let mut i: usize = 0;
    while i < vs.len()
        invariant
            i <= vs@.len(),
            forall|j: int| 0 <= j < i ==> vs@[j] != v,
        decreases vs@.len() - i,
    {
        if vs[i] == v {
            return true;
        }
        i += 1;
    }
    false
}

fn contains_edge(es: &Vec<Edge>, e: Edge) -> (found: bool)
    ensures
        found == es@.contains(e),
{
    let mut i: usize = 0;
    while i < es.len()
        invariant
            i <= es@.len(),
            forall|j: int| 0 <= j < i ==> es@[j] != e,
        decreases es@.len() - i,
    {
        if es[i].0 == e.0 && es[i].1 == e.1 {
            return true;
        }
        i += 1;
    }
    false
}

/// A filtered sequence holds exactly the members that pass, and no
/// duplicates if there were none.
proof fn lemma_filter_members<A>(s: Seq<A>, keep: spec_fn(A) -> bool)
    ensures
        forall|x: A| #[trigger] s.filter(keep).contains(x) <==> s.contains(x) && keep(x),
        s.no_duplicates() ==> s.filter(keep).no_duplicates(),
    decreases s.len(),
{
    reveal(Seq::filter);
    let f = s.filter(keep);
    if s.len() > 0 {
        let front = s.drop_last();
        let g = front.filter(keep);
        lemma_filter_members(front, keep);
        assert forall|x: A| #[trigger] f.contains(x) <==> s.contains(x) && keep(x) by {
            if f.contains(x) {
                let i = choose|i: int| 0 <= i < f.len() && f[i] == x;
                if i < g.len() {
                    assert(g[i] == x);
                    assert(g.contains(x));
                    let k = choose|k: int| 0 <= k < front.len() && front[k] == x;
                    assert(s[k] == x);
                } else {
                    assert(s[s.len() - 1] == x);
                }
            }
            if s.contains(x) && keep(x) {
                let k = choose|k: int| 0 <= k < s.len() && s[k] == x;
                if k < front.len() {
                    assert(front[k] == x);
                    assert(g.contains(x));
                    let i = choose|i: int| 0 <= i < g.len() && g[i] == x;
                    assert(f[i] == x);
                } else {
                    assert(f[f.len() - 1] == x);
                }
            }
        }
        if s.no_duplicates() && keep(s.last()) {
            assert forall|i: int| 0 <= i < g.len() implies g[i] != s.last() by {
                let x = g[i];
                assert(g.contains(x));
                let k = choose|k: int| 0 <= k < front.len() && front[k] == x;
                assert(s[k] == x);
            }
        }
    }
}

/// A side table from vertices to a property.
pub struct GraphVertexProperty<T> {
    property_map: HashMap<Vertex, T>,
}

impl<T> View for GraphVertexProperty<T> {
    type V = Map<Vertex, T>;

    closed spec fn view(&self) -> Map<Vertex, T> {
        self.property_map@
    }
}

impl<T> GraphVertexProperty<T> {
    /// A table without entries.
    pub fn new() -> (p: GraphVertexProperty<T>)
        ensures
            p@ == Map::<Vertex, T>::empty(),
    {
        GraphVertexProperty { property_map: HashMap::new() }
    }

    /// The property of `v`, if it has one.
    pub fn get(&self, v: Vertex) -> (r: Option<&T>)
        ensures
            match r {
                Some(t) => self@.contains_key(v) && self@[v] == *t,
                None => !self@.contains_key(v),
            },
    {
        broadcast use group_hash_axioms;

        self.property_map.get(&v)
    }

    /// Gives `v` the property `t`, in place of any it had.
    pub fn insert(&mut self, v: Vertex, t: T)
        ensures
            final(self)@ == old(self)@.insert(v, t),
    {
        broadcast use group_hash_axioms;

        self.property_map.insert(v, t);
    }

    /// Takes the property of `v` away, if it has one.
    pub fn delete(&mut self, v: Vertex)
        ensures
            final(self)@ == old(self)@.remove(v),
    {
        broadcast use group_hash_axioms;

        self.property_map.remove(&v);
    }
}

/// The key under which an edge is filed: source in the upper half, target in
/// the lower half.
pub open spec fn edge_key(e: Edge) -> u64 {
    (e.0 * 0x1_0000_0000 + e.1) as u64
}

/// The edge filed under a key.
pub open spec fn key_edge(k: u64) -> Edge {
    ((k / 0x1_0000_0000) as u32, (k % 0x1_0000_0000) as u32)
}

fn pack_edge(e: Edge) -> (k: u64)
    ensures
        k == edge_key(e),
        key_edge(k) == e,
{
    let hi: u64 = e.0 as u64;
    let lo: u64 = e.1 as u64;
    hi * 0x1_0000_0000 + lo
}

/// A side table from edges to a property.
pub struct GraphEdgeProperty<T> {
    property_map: HashMap<u64, T>,
}

impl<T> View for GraphEdgeProperty<T> {
    type V = Map<Edge, T>;

    closed spec fn view(&self) -> Map<Edge, T> {
        Map::new(
            |e: Edge| self.property_map@.contains_key(edge_key(e)),
            |e: Edge| self.property_map@[edge_key(e)],
        )
    }
}

impl<T> GraphEdgeProperty<T> {
    /// A table without entries.
    pub fn new() -> (p: GraphEdgeProperty<T>)
        ensures
            p@ == Map::<Edge, T>::empty(),
    {
        let p = GraphEdgeProperty { property_map: HashMap::new() };
        assert(p@ =~= Map::<Edge, T>::empty());
        p
    }

    /// The property of `e`, if it has one.
    pub fn get(&self, e: Edge) -> (r: Option<&T>)
        ensures
            match r {
                Some(t) => self@.contains_key(e) && self@[e] == *t,
                None => !self@.contains_key(e),
            },
    {
        broadcast use group_hash_axioms;

        let k = pack_edge(e);
        self.property_map.get(&k)
    }

    /// Gives `e` the property `t`, in place of any it had.
    pub fn insert(&mut self, e: Edge, t: T)
        ensures
            final(self)@ == old(self)@.insert(e, t),
    {
        broadcast use group_hash_axioms;

        let k = pack_edge(e);
        self.property_map.insert(k, t);
        proof {
            assert forall|f: Edge| f != e implies edge_key(f) != k by {
                assert(key_edge(edge_key(f)) == f);
            }
            assert(self@ =~= old(self)@.insert(e, t));
        }
    }

    /// Takes the property of `e` away, if it has one.
    pub fn delete(&mut self, e: Edge)
        ensures
            final(self)@ == old(self)@.remove(e),
    {
        broadcast use group_hash_axioms;

        let k = pack_edge(e);
        self.property_map.remove(&k);
        proof {
            assert forall|f: Edge| f != e implies edge_key(f) != k by {
                assert(key_edge(edge_key(f)) == f);
            }
            assert(self@ =~= old(self)@.remove(e));
        }
    }
}

/// Walks the vertices of a graph in the order of their first insertion.
pub struct VertexIterator<'a> {
    graph: &'a Graph,
    position: usize,
}

impl<'a> VertexIterator<'a> {
    /// The vertices still to come.
    pub closed spec fn remaining(&self) -> Seq<Vertex> {
        if self.position <= self.graph.vertices@.len() {
            self.graph.vertices@.skip(self.position as int)
        } else {
            Seq::empty()
        }
    }

    /// Starts at the vertex that was inserted first.
    pub fn new(g: &'a Graph) -> (it: VertexIterator<'a>)
        ensures
            it.remaining() == g.vertex_seq(),
    {
        VertexIterator { graph: g, position: 0 }
    }

    /// Hands out the next vertex.
    pub fn next(&mut self) -> (r: Option<Vertex>)
        ensures
            match r {
                Some(v) => old(self).remaining().len() > 0 && v == old(self).remaining()[0]
                    && final(self).remaining() == old(self).remaining().drop_first(),
                None => old(self).remaining().len() == 0 && final(self).remaining().len() == 0,
            },
    {
        if self.position < self.graph.vertices.len() {
            let v = self.graph.vertices[self.position];
            self.position += 1;
            assert(self.remaining() =~= old(self).remaining().drop_first());
            Some(v)
        } else {
            None
        }
    }
}

/// Walks the edges of a graph in the order of their first insertion.
pub struct EdgeIterator<'a> {
    graph: &'a Graph,
    position: usize,
}

impl<'a> EdgeIterator<'a> {
    /// The edges still to come.
    pub closed spec fn remaining(&self) -> Seq<Edge> {
        if self.position <= self.graph.edges@.len() {
            self.graph.edges@.skip(self.position as int)
        } else {
            Seq::empty()
        }
    }

    /// Starts at the edge that was inserted first.
    pub fn new(g: &'a Graph) -> (it: EdgeIterator<'a>)
        ensures
            it.remaining() == g.edge_seq(),
    {
        EdgeIterator { graph: g, position: 0 }
    }

    /// Hands out the next edge.
    pub fn next(&mut self) -> (r: Option<Edge>)
        ensures
            match r {
                Some(e) => old(self).remaining().len() > 0 && e == old(self).remaining()[0]
                    && final(self).remaining() == old(self).remaining().drop_first(),
                None => old(self).remaining().len() == 0 && final(self).remaining().len() == 0,
            },
    {
        if self.position < self.graph.edges.len() {
            let e = self.graph.edges[self.position];
            self.position += 1;
            assert(self.remaining() =~= old(self).remaining().drop_first());
            Some(e)
        } else {
            None
        }
    }
}

} // verus!
