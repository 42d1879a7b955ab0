//! Writes a graph in the DOT language, for drawing. The edges are written in
//! ascending order, so that the same graph always gives the same text.
use crate::collections::graph::{Edge, EdgeIterator, Graph, Vertex};
use crate::data::values::{decimal_text, number_text};
use vstd::prelude::*;
use vstd::string::*;

verus! {

/// The order of edges: by source, then by target.
pub open spec fn edge_before(a: Edge, b: Edge) -> bool {
    a.0 < b.0 || (a.0 == b.0 && a.1 < b.1)
}

/// Every edge comes before the edges behind it.
pub open spec fn ascending(es: Seq<Edge>) -> bool {
    forall|i: int, j: int| 0 <= i < j < es.len() ==> edge_before(#[trigger] es[i], #[trigger] es[j])
}

/// The texts written beside one edge: the labels of its two ends and its own.
pub struct EdgeLabels {
    pub from: String,
    pub to: String,
    pub edge: String,
}

/// The line for one edge.
pub open spec fn edge_line(e: Edge, l: EdgeLabels) -> Seq<char> {
    "  \""@ + decimal_text(e.0 as int) + " "@ + l.from@ + "\" -> \""@ + decimal_text(e.1 as int) + " "@
        + l.to@ + "\" [ label=\""@ + l.edge@ + "\" ];\n"@
}

/// The lines for the first `i` edges.
pub open spec fn edge_lines(es: Seq<Edge>, ls: Seq<EdgeLabels>, i: int) -> Seq<char>
    decreases i,
{
    if i <= 0 {
        Seq::empty()
    } else {
        edge_lines(es, ls, i - 1) + edge_line(es[i - 1], ls[i - 1])
    }
}

/// The whole text: one line for each edge, between the opening and the
/// closing line of a directed graph.
pub open spec fn dot_text(es: Seq<Edge>, ls: Seq<EdgeLabels>) -> Seq<char> {
    "digraph G {\n"@ + edge_lines(es, ls, es.len() as int) + "}\n"@
}

fn comes_before(a: Edge, b: Edge) -> (r: bool)
    ensures
        r == edge_before(a, b),
{
    a.0 < b.0 || (a.0 == b.0 && a.1 < b.1)
}

/// The edges of a graph in ascending order.
pub fn sorted_edges(g: &Graph) -> (es: Vec<Edge>)
    requires
        g.wf(),
    ensures
        ascending(es@),
        es@.to_set() == g.edges(),
        es@.len() == g.edge_seq().len(),
{
    let mut out: Vec<Edge> = Vec::new();
    let mut it = EdgeIterator::new(g);
    let ghost all = g.edge_seq();
    let ghost taken: int = 0;
    proof {
        assert(all.skip(0) =~= all);
        assert(out@.to_set() =~= all.take(0).to_set());
    }
    loop
        invariant
            all == g.edge_seq(),
            all.no_duplicates(),
            0 <= taken <= all.len(),
            it.remaining() == all.skip(taken),
            ascending(out@),
            out@.len() == taken,
            out@.to_set() == all.take(taken).to_set(),
        ensures
            ascending(out@),
            out@.len() == all.len(),
            out@.to_set() == all.to_set(),
        decreases it.remaining().len(),
    {
        match it.next() {
            None => {
                proof {
                    assert(all.take(taken) =~= all);
                }
                break ;
            },
            Some(e) => {
                proof {
                    assert(e == all[taken]);
                    assert(all.skip(taken).drop_first() =~= all.skip(taken + 1));
                    if out@.contains(e) {
                        assert(all.take(taken).to_set().contains(e));
                        let k = choose|k: int| 0 <= k < taken && all.take(taken)[k] == e;
                        assert(all[k] == all[taken]);
                    }
                }
                let mut p: usize = 0;
                while p < out.len() && !comes_before(e, out[p])
                    invariant
                        p <= out.len(),
                        !out@.contains(e),
                        forall|i: int| 0 <= i < p ==> edge_before(#[trigger] out@[i], e),
                    decreases out.len() - p,
                {
                    assert(out@.contains(out@[p as int]));
                    p += 1;
                }
                let ghost before = out@;
                out.insert(p, e);
                proof {
                    assert forall|i: int, j: int| 0 <= i < j < out@.len() implies edge_before(
                        out@[i],
                        out@[j],
                    ) by {
                        if j < p {
                            assert(out@[i] == before[i] && out@[j] == before[j]);
                        } else if j == p {
                            assert(out@[i] == before[i]);
                        } else if i < p {
                            assert(out@[i] == before[i] && out@[j] == before[j - 1]);
                        } else if i == p {
                            assert(out@[j] == before[j - 1]);
                            assert(edge_before(e, before[p as int]));
                            if p < j - 1 {
                                assert(edge_before(before[p as int], before[j - 1]));
                            }
                        } else {
                            assert(out@[i] == before[i - 1] && out@[j] == before[j - 1]);
                        }
                    }
                    assert(all.take(taken + 1) =~= all.take(taken).push(e));
                    all.take(taken).lemma_push_to_set_commute(e);
                    assert forall|x: Edge| out@.to_set().contains(x) <==> before.to_set().insert(
                        e,
                    ).contains(x) by {
                        if out@.contains(x) {
                            let k = choose|k: int| 0 <= k < out@.len() && out@[k] == x;
                            if k < p {
                                assert(before[k] == x);
                            } else if k > p {
                                assert(before[k - 1] == x);
                            }
                        }
                        if before.contains(x) {
                            let k = choose|k: int| 0 <= k < before.len() && before[k] == x;
                            if k < p {
                                assert(out@[k] == x);
                            } else {
                                assert(out@[k + 1] == x);
                            }
                        }
                        if x == e {
                            assert(out@[p as int] == x);
                        }
                    }
                    assert(out@.to_set() =~= before.to_set().insert(e));
                    taken = taken + 1;
                }
            },
        }
    }
    out
}

/// Writes the edges `es` with the labels `ls`, line by line.
pub fn render(es: &Vec<Edge>, ls: &Vec<EdgeLabels>) -> (r: String)
    requires
        es.len() == ls.len(),
    ensures
        r@ == dot_text(es@, ls@),
{
    let mut r = String::from_str("digraph G {\n");
    let ghost head = r@;
    let mut i: usize = 0;
    assert(head + edge_lines(es@, ls@, 0) =~= head);
    while i < es.len()
        invariant
            i <= es.len(),
            es.len() == ls.len(),
            r@ == head + edge_lines(es@, ls@, i as int),
        decreases es.len() - i,
    {
        let ghost sofar = r@;
        let e = es[i];
        r.append("  \"");
        r.append(number_text(e.0 as i64).as_str());
        r.append(" ");
        r.append(ls[i].from.as_str());
        r.append("\" -> \"");
        r.append(number_text(e.1 as i64).as_str());
        r.append(" ");
        r.append(ls[i].to.as_str());
        r.append("\" [ label=\"");
        r.append(ls[i].edge.as_str());
        r.append("\" ];\n");
        proof {
            assert(r@ =~= sofar + edge_line(es@[i as int], ls@[i as int]));
            assert(r@ =~= head + edge_lines(es@, ls@, i + 1));
        }
        i += 1;
    }
    r.append("}\n");
    r
}

/// What `f` and `e` may hand back as the labels of the edge `x`.
pub open spec fn labelled<F: Fn(Vertex) -> String, G: Fn(Edge) -> String>(
    f: F,
    e: G,
    x: Edge,
    l: EdgeLabels,
) -> bool {
    call_ensures(f, (x.0,), l.from) && call_ensures(f, (x.1,), l.to) && call_ensures(e, (x,), l.edge)
}

/// Writes the graph `g` in the DOT language. `f` gives the label of a
/// vertex and `e` the label of an edge.
pub fn print_as_graphviz<F, G>(g: &Graph, f: F, e: G) -> (r: String) where
    F: Fn(Vertex) -> String,
    G: Fn(Edge) -> String,

    requires
        g.wf(),
        forall|v: Vertex| call_requires(f, (v,)),
        forall|x: Edge| call_requires(e, (x,)),
    ensures
        exists|es: Seq<Edge>, ls: Seq<EdgeLabels>|
            {
                &&& ascending(es)
                &&& es.to_set() == g.edges()
                &&& ls.len() == es.len()
                &&& forall|k: int| 0 <= k < es.len() ==> labelled(f, e, es[k], #[trigger] ls[k])
                &&& r@ == dot_text(es, ls)
            },
{
    let edges = sorted_edges(g);
    let mut labels: Vec<EdgeLabels> = Vec::new();
    let mut i: usize = 0;
    while i < edges.len()
        invariant
            i <= edges.len(),
            labels.len() == i,
            forall|v: Vertex| call_requires(f, (v,)),
            forall|x: Edge| call_requires(e, (x,)),
            forall|k: int| 0 <= k < i ==> labelled(f, e, edges@[k], #[trigger] labels@[k]),
        decreases edges.len() - i,
    {
        let x = edges[i];
        let from = f(x.0);
        let to = f(x.1);
        let edge = e(x);
        labels.push(EdgeLabels { from: from, to: to, edge: edge });
        i += 1;
    }
    let r = render(&edges, &labels);
    proof {
        let es = edges@;
        let ls = labels@;
        assert(ascending(es) && es.to_set() == g.edges() && ls.len() == es.len() && (forall|k: int|
            0 <= k < es.len() ==> labelled(f, e, es[k], #[trigger] ls[k])) && r@ == dot_text(es, ls));
    }
    r
}

} // verus!
