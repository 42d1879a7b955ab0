//! An arena tree: nodes live in one growing vector and are addressed by the
//! index they were created at. Deleting a node leaves a tombstone behind, so
//! an identity is never reused or renumbered.
use std::collections::VecDeque;
use vstd::prelude::*;

verus! {

/// Stable handle of a node: its index at creation time.
pub type NodeId = usize;

/// The root always sits at index 0.
pub const root_id: NodeId = 0;

/// Placeholder handle for a child that has not been assigned yet.
pub const error_id: NodeId = usize::MAX;

/// What the arena stores for one node.
#[derive(Debug)]
pub struct Slot<T> {
    pub value: T,
    pub live: bool,
    pub parent: NodeId,
}

/// A tree whose nodes live in one arena and are known by the index they were
/// created at.
#[derive(Debug)]
pub struct FlatTree<T> {
    elements: Vec<Slot<T>>,
}

/// Every node but the root was created under a node that already existed,
/// and every index is a `NodeId`.
pub open spec fn parents_precede<T>(s: Seq<Slot<T>>) -> bool {
    &&& s.len() <= usize::MAX
    &&& forall|i: int|
        0 <= i < s.len() ==> if i == 0 {
            (#[trigger] s[i]).parent == 0
        } else {
            (#[trigger] s[i]).parent < i
        }
}

/// `m` is `n` or a descendant of `n`: following parent links from `m` passes
/// through `n`.
pub open spec fn in_subtree<T>(s: Seq<Slot<T>>, m: int, n: int) -> bool
    decreases m,
{
    if m < 0 || m >= s.len() {
        false
    } else if m == n {
        true
    } else if 0 < m && s[m].parent < m {
        in_subtree(s, s[m].parent as int, n)
    } else {
        false
    }
}

/// The value found when looking `n` up: nothing for a tombstone.
pub open spec fn lookup<T>(s: Seq<Slot<T>>, n: int) -> Option<T> {
    if 0 <= n < s.len() && s[n].live {
        Some(s[n].value)
    } else {
        None
    }
}

/// `c` is a live node directly below `n`. The root, which is its own parent,
/// is nobody's child.
pub open spec fn is_child<T>(s: Seq<Slot<T>>, c: int, n: NodeId) -> bool {
    0 <= c < s.len() && s[c].live && s[c].parent == n && c != n
}

/// The children of `n` among the first `k` slots, in ascending order.
pub open spec fn children_upto<T>(s: Seq<Slot<T>>, n: NodeId, k: int) -> Seq<NodeId>
    decreases k,
{
    if k <= 0 {
        Seq::empty()
    } else if is_child(s, k - 1, n) {
        children_upto(s, n, k - 1).push((k - 1) as NodeId)
    } else {
        children_upto(s, n, k - 1)
    }
}

/// All children of `n`, in the order they were created.
pub open spec fn children_of<T>(s: Seq<Slot<T>>, n: NodeId) -> Seq<NodeId> {
    children_upto(s, n, s.len() as int)
}

/// The live nodes from index `from` on, in ascending order.
pub open spec fn live_from<T>(s: Seq<Slot<T>>, from: int) -> Seq<NodeId>
    decreases s.len() - from,
{
    if from < 0 || from >= s.len() {
        Seq::empty()
    } else if s[from].live {
        seq![from as NodeId] + live_from(s, from + 1)
    } else {
        live_from(s, from + 1)
    }
}

/// The arena after deleting `n`: every slot of the subtree under `n` is a
/// tombstone, nothing else changes.
pub open spec fn deleted<T>(s: Seq<Slot<T>>, n: int) -> Seq<Slot<T>> {
    Seq::new(
        s.len(),
        |i: int| Slot { value: s[i].value, live: s[i].live && !in_subtree(s, i, n), parent: s[i].parent },
    )
}

/// The arena after creating one live node per value of `values` under `p`.
pub open spec fn inserted_under<T>(s: Seq<Slot<T>>, values: Seq<T>, p: NodeId) -> Seq<Slot<T>> {
    s + Seq::new(values.len(), |k: int| Slot { value: values[k], live: true, parent: p })
}

/// `n` is live and so is every node between it and the root.
pub open spec fn reachable<T>(s: Seq<Slot<T>>, n: int) -> bool
    decreases n,
{
    if n < 0 || n >= s.len() || !s[n].live {
        false
    } else if n == 0 {
        true
    } else if s[n].parent < n {
        reachable(s, s[n].parent as int)
    } else {
        false
    }
}

impl<T> View for FlatTree<T> {
    type V = Seq<Slot<T>>;

    closed spec fn view(&self) -> Seq<Slot<T>> {
        self.elements@
    }
}

impl<T> FlatTree<T> {
    /// The arena is a tree: see `parents_precede`.
    pub open spec fn wf(&self) -> bool {
        parents_precede(self@)
    }

    /// A tree that holds its root and nothing else.
    pub fn new_with_root(root: T) -> (t: FlatTree<T>)
        ensures
            t.wf(),
            t@ == seq![Slot { value: root, live: true, parent: 0 }],
    {
        let mut t = FlatTree { elements: Vec::new() };
        t.elements.push(Slot { value: root, live: true, parent: 0 });
        t
    }

    /// A tree without any node. Its first node will be its root.
    pub fn new_empty() -> (t: FlatTree<T>)
        ensures
            t.wf(),
            t@ == Seq::<Slot<T>>::empty(),
    {
        FlatTree { elements: Vec::new() }
    }

    /// Number of identities handed out so far, tombstones included.
    pub fn len(&self) -> (n: usize)
        ensures
            n == self@.len(),
    {
        self.elements.len()
    }

    /// Installs `v` as a live root, creating the root slot if the arena is
    /// still empty.
    pub fn set_root(&mut self, v: T)
        requires
            old(self).wf(),
        ensures
            final(self).wf(),
            final(self)@ == if old(self)@.len() == 0 {
                seq![Slot { value: v, live: true, parent: 0 }]
            } else {
                old(self)@.update(0, Slot { value: v, live: true, parent: 0 })
            },
    {
        if self.elements.len() == 0 {
            self.elements.push(Slot { value: v, live: true, parent: 0 });
        } else {
            self.elements[0] = Slot { value: v, live: true, parent: 0 };
        }
    }

    /// Creates a live node holding `v` under `p` and returns its identity.
    /// In an empty arena the node becomes the root.
    pub fn new_node(&mut self, v: T, p: NodeId) -> (id: NodeId)
        requires
            old(self).wf(),
            p < old(self)@.len() || (p == 0 && old(self)@.len() == 0),
        ensures
            final(self).wf(),
            id == old(self)@.len(),
            final(self)@ == old(self)@.push(Slot { value: v, live: true, parent: p }),
    {
        let id = self.elements.len();
        self.elements.push(Slot { value: v, live: true, parent: p });
        assert(self.elements@.len() == self.elements.len());
        id
    }

    /// Turns `n` and everything below it into tombstones.
    pub fn delete_node(&mut self, n: NodeId)
        requires
            old(self).wf(),
            n < old(self)@.len(),
        ensures
            final(self).wf(),
            final(self)@ == deleted(old(self)@, n as int),
    {
        let len = self.elements.len();
        let mut doomed: Vec<bool> = Vec::new();
        let mut k: usize = 0;
        while k < len
            invariant
                k <= len,
                doomed@.len() == k,
                forall|j: int| 0 <= j < k ==> !doomed@[j],
            decreases len - k,
        {
            doomed.push(false);
            k += 1;
        }
        doomed[n] = true;
        self.elements[n].live = false;
        let mut i: usize = n + 1;
        proof {
            assert forall|j: int| 0 <= j < i implies #[trigger] doomed@[j] == in_subtree(
                old(self)@,
                j,
                n as int,
            ) by {
                lemma_subtree_ids_follow(old(self)@, j, n as int);
            }
            assert forall|j: int| 0 <= j < i implies (#[trigger] self.elements@[j]).live == (old(
                self,
            )@[j].live && !in_subtree(old(self)@, j, n as int)) by {
                lemma_subtree_ids_follow(old(self)@, j, n as int);
            }
        }
        while i < len
            invariant
                n < i <= len,
                len == old(self)@.len(),
                parents_precede(old(self)@),
                doomed@.len() == len,
                self.elements@.len() == len,
                forall|j: int| 0 <= j < i ==> #[trigger] doomed@[j] == in_subtree(old(self)@, j, n as int),
                forall|j: int| i <= j < len ==> !#[trigger] doomed@[j],
                forall|j: int|
                    0 <= j < len ==> (#[trigger] self.elements@[j]).value == old(self)@[j].value
                        && self.elements@[j].parent == old(self)@[j].parent,
                forall|j: int|
                    0 <= j < i ==> (#[trigger] self.elements@[j]).live == (old(self)@[j].live
                        && !in_subtree(old(self)@, j, n as int)),
                forall|j: int| i <= j < len ==> (#[trigger] self.elements@[j]).live == old(self)@[j].live,
            decreases len - i,
        {
            let p = self.elements[i].parent;
            assert(p == old(self)@[i as int].parent && p < i);
            assert(in_subtree(old(self)@, i as int, n as int) == in_subtree(
                old(self)@,
                p as int,
                n as int,
            ));
            if doomed[p] {
                doomed[i] = true;
                self.elements[i].live = false;
            }
            i += 1;
        }
        assert(self.elements@ =~= deleted(old(self)@, n as int));
    }

    /// Replaces the value of `n` in place; a tombstone is left untouched.
    pub fn set_node_value(&mut self, n: NodeId, v: T)
        requires
            old(self).wf(),
            n < old(self)@.len(),
        ensures
            final(self).wf(),
            final(self)@ == if old(self)@[n as int].live {
                old(self)@.update(
                    n as int,
                    Slot { value: v, live: true, parent: old(self)@[n as int].parent },
                )
            } else {
                old(self)@
            },
    {
        if self.elements[n].live {
            self.elements[n].value = v;
            assert(self.elements@ =~= old(self)@.update(
                n as int,
                Slot { value: v, live: true, parent: old(self)@[n as int].parent },
            ));
        }
    }

    /// The value of `n`, unless `n` is a tombstone.
    pub fn get_node_value(&self, n: NodeId) -> (r: Option<&T>)
        requires
            n < self@.len(),
        ensures
            match r {
                Some(v) => lookup(self@, n as int) == Some(*v),
                None => lookup(self@, n as int).is_none(),
            },
    {
        if self.elements[n].live {
            Some(&self.elements[n].value)
        } else {
            None
        }
    }

    /// Lends the value of `n` for rewriting in place; nothing else in the
    /// arena can change through the loan.
    pub fn get_mut_node_value(&mut self, n: NodeId) -> (r: Option<&mut T>)
        requires
            old(self).wf(),
            n < old(self)@.len(),
        ensures
            final(self).wf(),
            match r {
                Some(v) => {
                    &&& lookup(old(self)@, n as int) == Some(*v)
                    &&& final(self)@ == old(self)@.update(
                        n as int,
                        Slot { value: *final(v), live: true, parent: old(self)@[n as int].parent },
                    )
                },
                None => lookup(old(self)@, n as int).is_none() && final(self)@ == old(self)@,
            },
    {
        if self.elements[n].live {
            Some(&mut self.elements[n].value)
        } else {
            None
        }
    }

    /// The node under which `n` was created, whether or not either is live. The
    /// root is its own parent.
    pub fn get_parent(&self, n: NodeId) -> (p: NodeId)
        requires
            n < self@.len(),
        ensures
            p == self@[n as int].parent,
    {
        self.elements[n].parent
    }

    /// The live nodes directly below `n`, in the order they were created.
    pub fn get_children(&self, n: NodeId) -> (r: Vec<NodeId>)
        ensures
            r@ == children_of(self@, n),
    {
        let mut r: Vec<NodeId> = Vec::new();
        let mut i: usize = 0;
        while i < self.elements.len()
            invariant
                i <= self.elements@.len(),
                r@ == children_upto(self@, n, i as int),
            decreases self.elements@.len() - i,
        {
            if self.elements[i].live && self.elements[i].parent == n && i != n {
                r.push(i);
            }
            i += 1;
        }
        r
    }
}

/// Walks the live nodes in creation order.
pub struct RandomFlatTreeIterator<'a, T> {
    tree: &'a FlatTree<T>,
    position: usize,
}

impl<'a, T> RandomFlatTreeIterator<'a, T> {
    /// The tree walked over.
    pub closed spec fn tree(&self) -> FlatTree<T> {
        *self.tree
    }

    /// The identities still to come, in the order `next` hands them out.
    pub closed spec fn remaining(&self) -> Seq<NodeId> {
        live_from(self.tree@, self.position as int)
    }

    /// Starts at the first node.
    pub fn new(t: &'a FlatTree<T>) -> (it: RandomFlatTreeIterator<'a, T>)
        ensures
            it.tree() == *t,
            it.remaining() == live_from(t@, 0),
    {
        RandomFlatTreeIterator { tree: t, position: 0 }
    }

    /// Hands out the next live node with its value.
    pub fn next(&mut self) -> (r: Option<(NodeId, &'a T)>)
        ensures
            final(self).tree() == old(self).tree(),
            match r {
                Some((id, v)) => {
                    &&& old(self).remaining() == seq![id] + final(self).remaining()
                    &&& lookup(old(self).tree()@, id as int) == Some(*v)
                },
                None => old(self).remaining().len() == 0 && final(self).remaining().len() == 0,
            },
    {
        let len = self.tree.elements.len();
        while self.position < len
            invariant
                len == self.tree@.len(),
                self.tree == old(self).tree,
                live_from(self.tree@, self.position as int) == old(self).remaining(),
            decreases len - self.position,
        {
            let id = self.position;
            self.position += 1;
            if self.tree.elements[id].live {
                return Some((id, &self.tree.elements[id].value));
            }
        }
        None
    }
}

/// What holds between two steps of a pre-order walk over `s` with the queue
/// `q` and the set `v` of nodes already handed out.
pub closed spec fn walk_inv<T>(s: Seq<Slot<T>>, q: Seq<NodeId>, v: Set<NodeId>) -> bool {
    &&& parents_precede(s)
    &&& v.finite()
    &&& v.subset_of(Set::new(|n: NodeId| n < s.len()))
    &&& q.no_duplicates()
    &&& forall|i: int| 0 <= i < q.len() ==> !v.contains(#[trigger] q[i]) && reachable(s, q[i] as int)
    &&& forall|n: NodeId| #[trigger] v.contains(n) ==> reachable(s, n as int)
    &&& forall|n: NodeId, u: NodeId|
        #![trigger v.contains(n), v.contains(u)]
        #![trigger q.contains(n), v.contains(u)]
        (v.contains(n) || q.contains(n)) && n != 0 && !v.contains(u) ==> s[n as int].parent != u
    &&& forall|n: NodeId|
        #[trigger] reachable(s, n as int) && (n == 0 || v.contains(s[n as int].parent))
            ==> v.contains(n) || q.contains(n)
}

/// Walks the live nodes that hang together with the root, each parent before
/// any of its descendants.
pub struct PreOrderTreeIterator<'a, T> {
    queue: VecDeque<NodeId>,
    tree: &'a FlatTree<T>,
    seen: Ghost<Set<NodeId>>,
}

impl<'a, T> PreOrderTreeIterator<'a, T> {
    /// The tree walked over.
    pub closed spec fn tree(&self) -> FlatTree<T> {
        *self.tree
    }

    /// The identities discovered but not yet handed out; the front comes next.
    pub closed spec fn pending(&self) -> Seq<NodeId> {
        self.queue@
    }

    /// The identities handed out so far.
    pub closed spec fn visited(&self) -> Set<NodeId> {
        self.seen@
    }

    /// How many slots of the tree have not been handed out yet.
    pub closed spec fn unvisited(&self) -> nat {
        (self.tree@.len() - self.seen@.len()) as nat
    }

    /// The walk is consistent with its tree: see `walk_inv`.
    pub closed spec fn wf(&self) -> bool {
        walk_inv(self.tree@, self.queue@, self.seen@)
    }

    /// Starts at the root, if the tree has a live one.
    pub fn new(t: &'a FlatTree<T>) -> (it: PreOrderTreeIterator<'a, T>)
        requires
            t.wf(),
        ensures
            it.wf(),
            it.tree() == *t,
            it.visited() == Set::<NodeId>::empty(),
            it.unvisited() == t@.len(),
            it.pending() == if reachable(t@, 0) {
                seq![root_id]
            } else {
                Seq::<NodeId>::empty()
            },
    {
        let mut queue: VecDeque<NodeId> = VecDeque::new();
        if t.elements.len() > 0 && t.elements[0].live {
            queue.push_front(root_id);
        }
        let it = PreOrderTreeIterator { queue: queue, tree: t, seen: Ghost(Set::empty()) };
        proof {
            let s = t@;
            let q = it.queue@;
            if reachable(s, 0) {
                assert(q =~= seq![root_id]);
                assert(q[0] == 0);
            } else {
                assert(q =~= Seq::<NodeId>::empty());
            }
            assert forall|n: NodeId|
                #[trigger] reachable(s, n as int) && (n == 0 || it.seen@.contains(
                    s[n as int].parent,
                )) implies it.seen@.contains(n) || q.contains(n) by {
                assert(n == 0);
                assert(q[0] == n);
            }
        }
        it
    }

    /// Hands out the node at the front of the queue with its value, and puts
    /// its children in its place, the youngest first. It ends once every node
    /// that hangs together with the root was handed out.
    pub fn next(&mut self) -> (r: Option<(NodeId, &'a T)>)
        requires
            old(self).wf(),
        ensures
            final(self).wf(),
            final(self).tree() == old(self).tree(),
            match r {
                Some((id, v)) => {
                    &&& old(self).pending().len() > 0
                    &&& id == old(self).pending()[0]
                    &&& final(self).pending() == children_of(old(self).tree()@, id).reverse() + old(
                        self,
                    ).pending().drop_first()
                    &&& !old(self).visited().contains(id)
                    &&& final(self).visited() == old(self).visited().insert(id)
                    &&& reachable(old(self).tree()@, id as int)
                    &&& lookup(old(self).tree()@, id as int) == Some(*v)
                    &&& id != 0 ==> old(self).visited().contains(old(self).tree()@[id as int].parent)
                    &&& final(self).unvisited() < old(self).unvisited()
                },
                None => {
                    &&& old(self).pending().len() == 0
                    &&& final(self).pending() == old(self).pending()
                    &&& final(self).visited() == old(self).visited()
                    &&& final(self).unvisited() == old(self).unvisited()
                    &&& forall|n: NodeId|
                        final(self).visited().contains(n) <==> reachable(old(self).tree()@, n as int)
                },
            },
    {
        let ghost s = self.tree@;
        let ghost q0 = self.queue@;
        let ghost v0 = self.seen@;
        match self.queue.pop_front() {
            None => {
                proof {
                    assert(q0 =~= Seq::<NodeId>::empty());
                    assert forall|n: NodeId| reachable(s, n as int) implies v0.contains(n) by {
                        lemma_walk_complete(s, v0, n);
                    }
                }
                None
            },
            Some(id) => {
                let ghost rest = q0.drop_first();
                assert(self.queue@ =~= rest);
                let children = self.tree.get_children(id);
                let ghost kids = children@;
                let mut k: usize = 0;
                while k < children.len()
                    invariant
                        k <= children@.len(),
                        children@ == kids,
                        self.tree == old(self).tree,
                        self.seen == old(self).seen,
                        self.queue@ == kids.subrange(0, k as int).reverse() + rest,
                    decreases children@.len() - k,
                {
                    self.queue.push_front(children[k]);
                    proof {
                        assert(kids.subrange(0, k + 1).reverse() =~= seq![kids[k as int]] + kids.subrange(
                            0,
                            k as int,
                        ).reverse());
                        assert(self.queue@ =~= kids.subrange(0, k + 1).reverse() + rest);
                    }
                    k += 1;
                }
                assert(kids.subrange(0, kids.len() as int) =~= kids);
                self.seen = Ghost(v0.insert(id));
                proof {
                    lemma_walk_step(s, q0, v0);
                }
                Some((id, &self.tree.elements[id].value))
            },
        }
    }
}

/// The identities below a bound form a finite set of at most that size.
proof fn lemma_bounded_ids_finite(len: nat)
    ensures
        Set::new(|n: NodeId| n < len).finite(),
        Set::new(|n: NodeId| n < len).len() <= len,
    decreases len,
{
    let cur = Set::new(|n: NodeId| n < len);
    if len == 0 {
        assert(cur =~= Set::<NodeId>::empty());
    } else {
        let prev = Set::new(|n: NodeId| n < (len - 1) as nat);
        lemma_bounded_ids_finite((len - 1) as nat);
        if len - 1 <= usize::MAX {
            assert(cur =~= prev.insert((len - 1) as NodeId));
        } else {
            assert(cur =~= prev);
        }
    }
}

/// What `children_upto` holds: exactly the children below the bound, in
/// ascending order.
pub proof fn lemma_children_facts<T>(s: Seq<Slot<T>>, n: NodeId, k: int)
    requires
        k <= s.len() <= usize::MAX,
    ensures
        forall|c: NodeId| #[trigger]
            children_upto(s, n, k).contains(c) <==> c < k && is_child(s, c as int, n),
        forall|i: int, j: int|
            0 <= i < j < children_upto(s, n, k).len() ==> children_upto(s, n, k)[i] < children_upto(
                s,
                n,
                k,
            )[j],
    decreases k,
{
    let cur = children_upto(s, n, k);
    if k > 0 {
        lemma_children_facts(s, n, k - 1);
        let prev = children_upto(s, n, k - 1);
        if is_child(s, k - 1, n) {
            let last = (k - 1) as NodeId;
            assert(cur == prev.push(last));
            assert forall|c: NodeId| #[trigger] cur.contains(c) <==> c < k && is_child(s, c as int, n) by {
                if cur.contains(c) {
                    let i = choose|i: int| 0 <= i < cur.len() && cur[i] == c;
                    if i < prev.len() {
                        assert(prev[i] == c);
                        assert(prev.contains(c));
                    }
                }
                if c < k && is_child(s, c as int, n) {
                    if c == last {
                        assert(cur[prev.len() as int] == c);
                    } else {
                        assert(prev.contains(c));
                        let i = choose|i: int| 0 <= i < prev.len() && prev[i] == c;
                        assert(cur[i] == c);
                    }
                }
            }
            assert forall|i: int, j: int| 0 <= i < j < cur.len() implies cur[i] < cur[j] by {
                if j == prev.len() {
                    assert(prev[i] == cur[i]);
                    assert(prev.contains(cur[i]));
                } else {
                    assert(prev[i] == cur[i] && prev[j] == cur[j]);
                }
            }
        }
    }
}

/// One step of the walk keeps its invariant: the front of the queue is handed
/// out and its children take its place.
proof fn lemma_walk_step<T>(s: Seq<Slot<T>>, q0: Seq<NodeId>, v0: Set<NodeId>)
    requires
        walk_inv(s, q0, v0),
        q0.len() > 0,
    ensures
        walk_inv(s, children_of(s, q0[0]).reverse() + q0.drop_first(), v0.insert(q0[0])),
        !v0.contains(q0[0]),
        reachable(s, q0[0] as int),
        q0[0] != 0 ==> v0.contains(s[q0[0] as int].parent),
        v0.insert(q0[0]).len() == v0.len() + 1,
        v0.insert(q0[0]).len() <= s.len(),
{
    let id = q0[0];
    let rest = q0.drop_first();
    let kids = children_of(s, id);
    let q = kids.reverse() + rest;
    let v = v0.insert(id);
    let m = kids.len() as int;
    let n_set = Set::new(|n: NodeId| n < s.len());
    assert(q0.contains(id));
    assert(!v0.contains(q0[0]));
    assert(reachable(s, id as int));
    assert(n_set.contains(id));
    lemma_bounded_ids_finite(s.len());
    vstd::set_lib::lemma_len_subset(v, n_set);
    lemma_children_facts(s, id, s.len() as int);
    assert forall|i: int| 0 <= i < q.len() implies q[i] == if i < m {
        kids[m - 1 - i]
    } else {
        q0[i - m + 1]
    } by {}
    // every child is new to the walk
    assert forall|i: int| 0 <= i < kids.len() implies !v0.contains(#[trigger] kids[i])
        && !q0.contains(kids[i]) && reachable(s, kids[i] as int) by {
        let c = kids[i];
        assert(kids.contains(c));
        assert(is_child(s, c as int, id));
        assert(c != 0);
        assert(s[c as int].parent == id);
    }
    assert forall|i: int, j: int| 0 <= i < q.len() && 0 <= j < q.len() && i != j implies q[i]
        != q[j] by {
        if i < m && j < m {
        } else if i < m {
            assert(q0.contains(q[j]));
        } else if j < m {
            assert(q0.contains(q[i]));
        } else {
        }
    }
    assert forall|i: int| 0 <= i < q.len() implies !v.contains(#[trigger] q[i]) && reachable(
        s,
        q[i] as int,
    ) by {}
    assert forall|n: NodeId, u: NodeId|
        #![trigger v.contains(n), v.contains(u)]
        #![trigger q.contains(n), v.contains(u)]
        (v.contains(n) || q.contains(n)) && n != 0 && !v.contains(u) implies s[n as int].parent
        != u by {
        assert(!v0.contains(u));
        if v0.contains(n) {
        } else if n == id {
        } else {
            let i = choose|i: int| 0 <= i < q.len() && q[i] == n;
            if i < m {
                assert(q[i] == kids[m - 1 - i]);
                assert(kids.contains(n));
                assert(is_child(s, n as int, id));
            } else {
                assert(q[i] == q0[i - m + 1]);
                assert(q0.contains(n));
            }
        }
    }
    assert forall|n: NodeId|
        #[trigger] reachable(s, n as int) && (n == 0 || v.contains(s[n as int].parent)) implies v.contains(
        n,
    ) || q.contains(n) by {
        if n != id {
            if n != 0 && s[n as int].parent == id {
                assert(is_child(s, n as int, id));
                assert(kids.contains(n));
                let i = choose|i: int| 0 <= i < kids.len() && kids[i] == n;
                assert(q[m - 1 - i] == n);
            } else {
                assert(v0.contains(n) || q0.contains(n));
                if q0.contains(n) {
                    let i = choose|i: int| 0 <= i < q0.len() && q0[i] == n;
                    assert(q[m + i - 1] == n);
                }
            }
        }
    }
}

/// Once nothing is pending, every node that hangs together with the root has
/// been handed out.
proof fn lemma_walk_complete<T>(s: Seq<Slot<T>>, v: Set<NodeId>, n: NodeId)
    requires
        walk_inv(s, Seq::<NodeId>::empty(), v),
        reachable(s, n as int),
    ensures
        v.contains(n),
    decreases n,
{
    if n != 0 {
        lemma_walk_complete(s, v, s[n as int].parent);
    }
}

/// Deleting `n` hides exactly the subtree under `n`. Every identity stays
/// where it was; a node of the subtree can no longer be looked up and has no
/// children left; any other node keeps its value and its children, except that
/// `n` itself is gone from the children of its parent.
pub proof fn lemma_delete_hides_exactly_the_subtree<T>(s: Seq<Slot<T>>, n: NodeId, m: NodeId)
    requires
        parents_precede(s),
        n < s.len(),
        m < s.len(),
    ensures
        parents_precede(deleted(s, n as int)),
        deleted(s, n as int).len() == s.len(),
        in_subtree(s, m as int, n as int) ==> lookup(deleted(s, n as int), m as int).is_none()
            && children_of(deleted(s, n as int), m) == Seq::<NodeId>::empty(),
        !in_subtree(s, m as int, n as int) ==> lookup(deleted(s, n as int), m as int) == lookup(
            s,
            m as int,
        ) && children_of(deleted(s, n as int), m) == children_of(s, m).filter(|c: NodeId| c != n),
{
    lemma_children_after_delete(s, n, m, s.len() as int);
}

proof fn lemma_children_after_delete<T>(s: Seq<Slot<T>>, n: NodeId, m: NodeId, k: int)
    requires
        parents_precede(s),
        n < s.len(),
        m < s.len(),
        k <= s.len(),
    ensures
        in_subtree(s, m as int, n as int) ==> children_upto(deleted(s, n as int), m, k) == Seq::<
            NodeId,
        >::empty(),
        !in_subtree(s, m as int, n as int) ==> children_upto(deleted(s, n as int), m, k)
            == children_upto(s, m, k).filter(|c: NodeId| c != n),
    decreases k,
{
    let d = deleted(s, n as int);
    let keep = |c: NodeId| c != n;
    if k <= 0 {
        reveal(Seq::filter);
    } else {
        lemma_children_after_delete(s, n, m, k - 1);
        let c = k - 1;
        let prev = children_upto(s, m, k - 1);
        if c != m && s[c].parent == m {
            // a node below `m` lies in the subtree exactly if `m` does, or it is `n`
            assert(in_subtree(s, c, n as int) == (c == n || in_subtree(s, m as int, n as int)));
        }
        if is_child(s, c, m) {
            prev.lemma_filter_push(c as NodeId, keep);
        }
    }
}

/// Creating nodes under `p`, one after the other, appends their identities to
/// the children of `p` in the order of creation and leaves what was there.
pub proof fn lemma_insertions_append_children<T>(s: Seq<Slot<T>>, values: Seq<T>, p: NodeId)
    requires
        parents_precede(s),
        p < s.len(),
        s.len() + values.len() <= usize::MAX,
    ensures
        parents_precede(inserted_under(s, values, p)),
        children_of(inserted_under(s, values, p), p) == children_of(s, p) + Seq::new(
            values.len(),
            |k: int| (s.len() + k) as NodeId,
        ),
    decreases values.len(),
{
    let t = inserted_under(s, values, p);
    let ids = Seq::new(values.len(), |k: int| (s.len() + k) as NodeId);
    if values.len() == 0 {
        assert(t =~= s);
        assert(children_of(s, p) + ids =~= children_of(s, p));
    } else {
        let front = values.drop_last();
        let u = inserted_under(s, front, p);
        lemma_insertions_append_children(s, front, p);
        assert(t =~= u.push(Slot { value: values.last(), live: true, parent: p }));
        lemma_children_ignore_later_slots(u, t, p, u.len() as int);
        assert(is_child(t, t.len() - 1, p));
        assert(children_of(t, p) =~= children_of(s, p) + ids);
    }
}

/// Two arenas that agree on their first `k` slots agree on the children found
/// among them.
proof fn lemma_children_ignore_later_slots<T>(a: Seq<Slot<T>>, b: Seq<Slot<T>>, n: NodeId, k: int)
    requires
        k <= a.len(),
        k <= b.len(),
        forall|i: int| 0 <= i < k ==> a[i] == b[i],
    ensures
        children_upto(a, n, k) == children_upto(b, n, k),
    decreases k,
{
    if k > 0 {
        lemma_children_ignore_later_slots(a, b, n, k - 1);
    }
}

/// What `live_from` holds: exactly the live nodes from the bound on, in
/// ascending order.
pub proof fn lemma_live_facts<T>(s: Seq<Slot<T>>, from: int)
    requires
        0 <= from,
        s.len() <= usize::MAX,
    ensures
        forall|n: NodeId| #[trigger]
            live_from(s, from).contains(n) <==> from <= n < s.len() && s[n as int].live,
        forall|i: int, j: int|
            0 <= i < j < live_from(s, from).len() ==> live_from(s, from)[i] < live_from(s, from)[j],
    decreases s.len() - from,
{
    let cur = live_from(s, from);
    if from < s.len() {
        lemma_live_facts(s, from + 1);
        let rest = live_from(s, from + 1);
        if s[from].live {
            let first = from as NodeId;
            assert(cur == seq![first] + rest);
            assert forall|n: NodeId| #[trigger] cur.contains(n) <==> from <= n < s.len()
                && s[n as int].live by {
                if cur.contains(n) {
                    let i = choose|i: int| 0 <= i < cur.len() && cur[i] == n;
                    if i > 0 {
                        assert(rest[i - 1] == n);
                        assert(rest.contains(n));
                    }
                }
                if from <= n < s.len() && s[n as int].live {
                    if n == first {
                        assert(cur[0] == n);
                    } else {
                        assert(rest.contains(n));
                        let i = choose|i: int| 0 <= i < rest.len() && rest[i] == n;
                        assert(cur[i + 1] == n);
                    }
                }
            }
            assert forall|i: int, j: int| 0 <= i < j < cur.len() implies cur[i] < cur[j] by {
                assert(rest[j - 1] == cur[j]);
                assert(rest.contains(cur[j]));
                if i > 0 {
                    assert(rest[i - 1] == cur[i]);
                }
            }
        }
    }
}

/// A change to an arena: the creation of a node or the deletion of one.
pub enum TreeOp<T> {
    NewNode { value: T, parent: NodeId },
    DeleteNode { node: NodeId },
}

/// The change can be made: the parent of a new node exists, and so does a
/// node to delete.
pub open spec fn allowed<T>(s: Seq<Slot<T>>, op: TreeOp<T>) -> bool {
    match op {
        TreeOp::NewNode { parent, .. } => s.len() < usize::MAX && (parent < s.len() || (parent == 0
            && s.len() == 0)),
        TreeOp::DeleteNode { node } => node < s.len(),
    }
}

/// The arena after the change.
pub open spec fn applied<T>(s: Seq<Slot<T>>, op: TreeOp<T>) -> Seq<Slot<T>> {
    match op {
        TreeOp::NewNode { value, parent } => s.push(Slot { value, live: true, parent }),
        TreeOp::DeleteNode { node } => deleted(s, node as int),
    }
}

/// Each of the changes can be made once the changes before it were made.
pub open spec fn allowed_all<T>(s: Seq<Slot<T>>, ops: Seq<TreeOp<T>>) -> bool
    decreases ops.len(),
{
    ops.len() == 0 || (allowed_all(s, ops.drop_last()) && allowed(
        applied_all(s, ops.drop_last()),
        ops.last(),
    ))
}

/// The arena after the changes, made one after the other.
pub open spec fn applied_all<T>(s: Seq<Slot<T>>, ops: Seq<TreeOp<T>>) -> Seq<Slot<T>>
    decreases ops.len(),
{
    if ops.len() == 0 {
        s
    } else {
        applied(applied_all(s, ops.drop_last()), ops.last())
    }
}

/// Whatever nodes are created and deleted afterwards, a node keeps its
/// identity, its value and its parent, and a tombstone stays a tombstone.
pub proof fn lemma_identities_are_stable<T>(s: Seq<Slot<T>>, ops: Seq<TreeOp<T>>)
    requires
        parents_precede(s),
        allowed_all(s, ops),
    ensures
        parents_precede(applied_all(s, ops)),
        s.len() <= applied_all(s, ops).len(),
        forall|k: int|
            0 <= k < s.len() ==> (#[trigger] applied_all(s, ops)[k]).value == s[k].value
                && applied_all(s, ops)[k].parent == s[k].parent && (applied_all(s, ops)[k].live
                ==> s[k].live),
    decreases ops.len(),
{
    if ops.len() > 0 {
        lemma_identities_are_stable(s, ops.drop_last());
    }
}

/// A descendant never has a smaller identity than its ancestor.
pub proof fn lemma_subtree_ids_follow<T>(s: Seq<Slot<T>>, m: int, n: int)
    ensures
        in_subtree(s, m, n) ==> n <= m,
    decreases m,
{
    if 0 < m < s.len() && m != n && s[m].parent < m {
        lemma_subtree_ids_follow(s, s[m].parent as int, n);
    }
}

} // verus!
