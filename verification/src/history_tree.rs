use std::collections::{BTreeMap, VecDeque};

use vstd::prelude::*;

use crate::collection::Keyed;
use crate::delta::{
    applies_entrywise, apply_entries, delta_fits, lemma_apply_reverse_restores, ApplyDelta, Delta,
    HalfDelta,
};
use crate::edit::{ApplyEdit, CmdEdit, ExtractEdit, RevertEdit};
use crate::recorder::Recorder;
use crate::snapshot::Snapshot;

verus! {

/// Id of a node in [`HistoryTree`].
#[derive(Clone, Copy, Debug, PartialEq, Eq, Structural, Hash, PartialOrd, Ord)]
pub struct HistoryTreeNodeId(usize);

impl View for HistoryTreeNodeId {
    type V = usize;

    closed spec fn view(&self) -> usize {
        self.0
    }
}

impl HistoryTreeNodeId {
    /// Two ids are the same exactly when their node indices are.
    pub proof fn lemma_eq_iff_index(a: Self, b: Self)
        ensures
            (a == b) <==> (a@ == b@),
    {
    }

    /// Creates an id from a node index.
    pub fn new(index: usize) -> (r: Self)
        ensures
            r@ == index,
    {
        HistoryTreeNodeId(index)
    }

    /// Returns the underlying node index.
    pub fn index(self) -> (r: usize)
        ensures
            r == self@,
    {
        self.0
    }
}

/// A single history node in [`HistoryTree`].
#[derive(Clone, Debug, PartialEq, Eq, Hash)]
pub struct HistoryTreeNode<E, Cmd = ()> {
    /// Command metadata together with the recorded edit at this node.
    cmd_edit: CmdEdit<Cmd, E>,
    /// Parent node id. `None` for the root.
    parent: Option<HistoryTreeNodeId>,
    /// Child node ids.
    children: Vec<HistoryTreeNodeId>,
    /// Depth of this node in the tree. Root has depth `0`.
    depth: u64,
}

impl<E, Cmd> HistoryTreeNode<E, Cmd> {
    /// Command metadata and edit stored at this node.
    pub closed spec fn cmd_edit_spec(&self) -> CmdEdit<Cmd, E> {
        self.cmd_edit
    }

    /// Parent of this node; `None` for the root.
    pub closed spec fn parent_spec(&self) -> Option<HistoryTreeNodeId> {
        self.parent
    }

    /// Children of this node, in the order they were committed.
    pub closed spec fn children_spec(&self) -> Seq<HistoryTreeNodeId> {
        self.children@
    }

    /// Depth of this node.
    pub closed spec fn depth_spec(&self) -> u64 {
        self.depth
    }

    /// Returns command metadata together with the recorded edit at this node.
    pub fn cmd_edit(&self) -> (r: &CmdEdit<Cmd, E>)
        ensures
            *r == self.cmd_edit_spec(),
    {
        &self.cmd_edit
    }

    /// Returns parent node id. `None` for the root.
    pub fn parent(&self) -> (r: Option<HistoryTreeNodeId>)
        ensures
            r == self.parent_spec(),
    {
        self.parent
    }

    /// Returns child node ids.
    pub fn children(&self) -> (r: &[HistoryTreeNodeId])
        ensures
            r@ == self.children_spec(),
    {
        self.children.as_slice()
    }

    /// Returns depth of this node in the tree. Root has depth `0`.
    pub fn depth(&self) -> (r: u64)
        ensures
            r == self.depth_spec(),
    {
        self.depth
    }
}

/// A history tree for non-linear undo-redo action.
#[derive(Clone, Debug, PartialEq, Eq, Hash)]
pub struct HistoryTree<E, Cmd = ()> {
    nodes: Vec<HistoryTreeNode<E, Cmd>>,
    curr_node: HistoryTreeNodeId,
}

impl<E, Cmd> HistoryTree<E, Cmd> {
    /// The nodes of the tree, indexed by node id.
    pub closed spec fn nodes_spec(&self) -> Seq<HistoryTreeNode<E, Cmd>> {
        self.nodes@
    }

    /// The current node.
    pub closed spec fn current(&self) -> HistoryTreeNodeId {
        self.curr_node
    }

    /// Index of the parent of node `i` in `nodes`, or `-1` where it has none.
    pub closed spec fn par_in(nodes: Seq<HistoryTreeNode<E, Cmd>>, i: int) -> int {
        match nodes[i].parent {
            Some(p) => p.0 as int,
            None => -1,
        }
    }

    /// Whether node `c` is listed among the children of node `p` in `nodes`.
    pub closed spec fn has_child_in(nodes: Seq<HistoryTreeNode<E, Cmd>>, p: int, c: int) -> bool {
        exists|j: int| 0 <= j < nodes[p].children@.len() && #[trigger] nodes[p].children@[j].0 == c
    }

    /// The node sequence forms a tree: node `0` is the root, every other node
    /// has a parent with a smaller index and depth one more than its parent's,
    /// the children lists are exactly the inverse of the parent links, and
    /// each children list is strictly increasing (commit order, no repeats).
    pub closed spec fn nodes_wf(nodes: Seq<HistoryTreeNode<E, Cmd>>) -> bool {
        let n = nodes.len();
        &&& 1 <= n
        &&& nodes[0].parent is None
        &&& nodes[0].depth == 0
        &&& forall|i: int|
            0 < i < n ==> {
                &&& nodes[i].parent is Some
                &&& 0 <= #[trigger] Self::par_in(nodes, i) < i
                &&& nodes[i].depth == nodes[Self::par_in(nodes, i)].depth + 1
                &&& nodes[i].depth <= i
            }
        &&& forall|p: int, j: int|
            #![trigger nodes[p].children@[j]]
            0 <= p < n && 0 <= j < nodes[p].children@.len() ==> {
                let c = nodes[p].children@[j].0 as int;
                &&& 0 < c < n
                &&& Self::par_in(nodes, c) == p
            }
        &&& forall|c: int| 0 < c < n ==> #[trigger] Self::has_child_in(nodes, Self::par_in(nodes, c), c)
        &&& forall|p: int, j1: int, j2: int|
            #![trigger nodes[p].children@[j1], nodes[p].children@[j2]]
            0 <= p < n && 0 <= j1 < j2 < nodes[p].children@.len() ==> nodes[p].children@[j1].0
                < nodes[p].children@[j2].0
    }

    /// Index of the parent of node `i`, or `-1` where it has none.
    pub open spec fn par(&self, i: int) -> int {
        Self::par_in(self.nodes_spec(), i)
    }

    /// Depth of node `i`.
    pub open spec fn depth_of(&self, i: int) -> nat {
        self.nodes_spec()[i].depth_spec() as nat
    }

    /// Whether node `c` is listed among the children of node `p`.
    pub open spec fn has_child(&self, p: int, c: int) -> bool {
        Self::has_child_in(self.nodes_spec(), p, c)
    }

    /// The tree is well formed: its nodes form a tree and the current node is
    /// one of them.
    pub closed spec fn wf(&self) -> bool {
        &&& Self::nodes_wf(self.nodes@)
        &&& self.curr_node.0 < self.nodes@.len()
    }

    /// Node `c` is `n` or one of its ancestors: following parent links up
    /// from `n` reaches `c`.
    pub open spec fn is_ancestor(&self, c: int, n: int) -> bool
        decreases n,
    {
        if n == c {
            true
        } else if 0 < n < self.nodes_spec().len() && 0 <= self.par(n) < n {
            self.is_ancestor(c, self.par(n))
        } else {
            false
        }
    }

    /// Node `l` is a deepest common ancestor of nodes `a` and `b`: it is an
    /// ancestor (or the node itself) of both, and no node that is so lies
    /// deeper.
    pub open spec fn is_deepest_common_ancestor(&self, a: int, b: int, l: int) -> bool {
        &&& self.is_ancestor(l, a)
        &&& self.is_ancestor(l, b)
        &&& forall|c: int|
            self.is_ancestor(c, a) && #[trigger] self.is_ancestor(c, b) ==> self.depth_of(c)
                <= self.depth_of(l)
    }

    /// The nodes on the way up from `n` to its ancestor `anc`, `n` first and
    /// `anc` left out.
    pub open spec fn climb(&self, n: int, anc: int) -> Seq<int>
        decreases n,
    {
        if n == anc || n <= 0 || n >= self.nodes_spec().len() {
            seq![]
        } else if 0 <= self.par(n) < n {
            seq![n] + self.climb(self.par(n), anc)
        } else {
            seq![]
        }
    }

    /// The lowest common ancestor of nodes `a` and `b`: the deeper one climbs
    /// until both have the same depth, then both climb until they meet.
    pub open spec fn lca(&self, a: int, b: int) -> int
        decreases a + b,
    {
        if a == b || a < 0 || b < 0 {
            a
        } else if self.depth_of(a) > self.depth_of(b) {
            if 0 <= self.par(a) < a {
                self.lca(self.par(a), b)
            } else {
                a
            }
        } else if self.depth_of(b) > self.depth_of(a) {
            if 0 <= self.par(b) < b {
                self.lca(a, self.par(b))
            } else {
                a
            }
        } else if 0 <= self.par(a) < a && 0 <= self.par(b) < b {
            self.lca(self.par(a), self.par(b))
        } else {
            a
        }
    }

    /// The nodes whose edits `checkout` to node `to` reverts, in that order:
    /// from the current node up to the lowest common ancestor, left out.
    pub open spec fn checkout_up(&self, to: int) -> Seq<int> {
        self.climb(self.current()@ as int, self.lca(self.current()@ as int, to))
    }

    /// The nodes whose edits `checkout` to node `to` applies, in that order:
    /// from below the lowest common ancestor down to `to`.
    pub open spec fn checkout_down(&self, to: int) -> Seq<int> {
        self.climb(to, self.lca(self.current()@ as int, to)).reverse()
    }

    /// The command stored at node `i`.
    pub open spec fn cmd_of(&self, i: int) -> Cmd {
        self.nodes_spec()[i].cmd_edit_spec().cmd
    }

    /// The edit stored at node `i`.
    pub open spec fn edit_of(&self, i: int) -> E {
        self.nodes_spec()[i].cmd_edit_spec().edit
    }

    /// A target goes from `before` to `after` by reverting, in turn, a clone of
    /// the edit of each node in `ns`.
    pub closed spec fn reverts_along<T>(&self, ns: Seq<int>, before: T, after: T) -> bool where
        E: RevertEdit<T> + Clone,
        decreases ns.len(),
    {
        if ns.len() == 0 {
            after == before
        } else {
            exists|e: E, mid: T, back: E|
                cloned(self.edit_of(ns[0]), e) && #[trigger] e.reverts(before, mid, back)
                    && self.reverts_along(ns.drop_first(), mid, after)
        }
    }

    /// A target goes from `before` to `after` by applying, in turn, a clone of
    /// the edit of each node in `ns`.
    pub closed spec fn applies_along<T>(&self, ns: Seq<int>, before: T, after: T) -> bool where
        E: ApplyEdit<T> + Clone,
        decreases ns.len(),
    {
        if ns.len() == 0 {
            after == before
        } else {
            exists|e: E, mid: T|
                cloned(self.edit_of(ns[0]), e) && #[trigger] e.applies(before, mid)
                    && self.applies_along(ns.drop_first(), mid, after)
        }
    }

    proof fn lemma_reverts_along_push<T>(
        &self,
        ns: Seq<int>,
        n: int,
        s0: T,
        s1: T,
        s2: T,
        e: E,
        back: E,
    ) where E: RevertEdit<T> + Clone
        requires
            self.reverts_along(ns, s0, s1),
            cloned(self.edit_of(n), e),
            e.reverts(s1, s2, back),
        ensures
            self.reverts_along(ns.push(n), s0, s2),
        decreases ns.len(),
    {
        if ns.len() == 0 {
            assert(ns.push(n).drop_first() =~= Seq::<int>::empty());
            assert(self.reverts_along(Seq::<int>::empty(), s2, s2));
            assert(ns.push(n)[0] == n);
        } else {
            let (e0, mid, b0) = choose|e0: E, mid: T, b0: E|
                cloned(self.edit_of(ns[0]), e0) && #[trigger] e0.reverts(s0, mid, b0)
                    && self.reverts_along(ns.drop_first(), mid, s1);
            self.lemma_reverts_along_push(ns.drop_first(), n, mid, s1, s2, e, back);
            assert(ns.push(n).drop_first() =~= ns.drop_first().push(n));
            assert(ns.push(n)[0] == ns[0]);
        }
    }

    proof fn lemma_applies_along_push<T>(&self, ns: Seq<int>, n: int, s0: T, s1: T, s2: T, e: E) where
        E: ApplyEdit<T> + Clone,
        requires
            self.applies_along(ns, s0, s1),
            cloned(self.edit_of(n), e),
            e.applies(s1, s2),
        ensures
            self.applies_along(ns.push(n), s0, s2),
        decreases ns.len(),
    {
        if ns.len() == 0 {
            assert(ns.push(n).drop_first() =~= Seq::<int>::empty());
            assert(self.applies_along(Seq::<int>::empty(), s2, s2));
            assert(ns.push(n)[0] == n);
        } else {
            let (e0, mid) = choose|e0: E, mid: T|
                cloned(self.edit_of(ns[0]), e0) && #[trigger] e0.applies(s0, mid)
                    && self.applies_along(ns.drop_first(), mid, s1);
            self.lemma_applies_along_push(ns.drop_first(), n, mid, s1, s2, e);
            assert(ns.push(n).drop_first() =~= ns.drop_first().push(n));
            assert(ns.push(n)[0] == ns[0]);
        }
    }

    /// Checking out the current node goes nowhere: no edit is reverted and
    /// none is applied, so the target stays as it is and no command comes
    /// back.
    pub proof fn lemma_checkout_current(&self)
        requires
            self.wf(),
        ensures
            self.checkout_up(self.current()@ as int) == Seq::<int>::empty(),
            self.checkout_down(self.current()@ as int) == Seq::<int>::empty(),
    {
        let c = self.curr_node.0 as int;
        assert(self.lca(c, c) == c);
        assert(self.climb(c, c) == Seq::<int>::empty());
        assert(self.climb(c, c).reverse() =~= Seq::<int>::empty());
    }

    /// Checking out the parent of the current node reverts just the current
    /// node's edit, as `undo` does; checking out a child of the current node
    /// applies just that child's edit, as `redo` does.
    pub proof fn lemma_checkout_neighbours(&self, ch: int)
        requires
            self.wf(),
        ensures
            self.current()@ != 0 ==> {
                &&& self.checkout_up(self.par(self.current()@ as int)) == seq![
                    self.current()@ as int,
                ]
                &&& self.checkout_down(self.par(self.current()@ as int)) == Seq::<int>::empty()
            },
            self.has_child(self.current()@ as int, ch) ==> {
                &&& self.checkout_up(ch) == Seq::<int>::empty()
                &&& self.checkout_down(ch) == seq![ch]
            },
    {
        let c = self.curr_node.0 as int;
        if c != 0 {
            self.lemma_node_links(c);
            let p = self.par(c);
            self.lemma_node_links(p);
            assert(self.lca(p, p) == p);
            assert(self.depth_of(c) == self.depth_of(p) + 1);
            assert(self.lca(c, p) == p);
            assert(self.climb(p, p) == Seq::<int>::empty());
            assert(self.climb(c, p) =~= seq![c]);
            assert(self.climb(p, p).reverse() =~= Seq::<int>::empty());
        }
        if self.has_child(c, ch) {
            self.lemma_children(c);
            let j = choose|j: int|
                0 <= j < self.nodes_spec()[c].children_spec().len()
                    && #[trigger] self.nodes_spec()[c].children_spec()[j]@ == ch;
            assert(self.nodes_spec()[c].children_spec()[j]@ == ch);
            self.lemma_node_links(ch);
            assert(self.lca(c, c) == c);
            assert(self.par(ch) == c);
            assert(self.depth_of(ch) == self.depth_of(c) + 1);
            assert(self.lca(c, ch) == c);
            assert(self.climb(c, c) == Seq::<int>::empty());
            assert(self.climb(ch, c) =~= seq![ch]);
            assert(self.climb(ch, c).reverse() =~= seq![ch]);
        }
    }

    /// Where nothing is reverted or applied, a target ends as it began.
    pub proof fn lemma_empty_path_keeps_target<T>(&self, before: T, after: T)
        where E: RevertEdit<T> + ApplyEdit<T> + Clone,
        requires
            exists|mid: T|
                self.reverts_along(Seq::<int>::empty(), before, mid)
                    && #[trigger] self.applies_along(Seq::<int>::empty(), mid, after),
        ensures
            after == before,
    {
    }

    /// The current node of a well-formed tree is one of its nodes.
    pub proof fn lemma_current_in_tree(&self)
        requires
            self.wf(),
        ensures
            self.current()@ < self.nodes_spec().len(),
    {
    }

    /// How node `c` hangs in the tree: the root has no parent and depth `0`;
    /// any other node has a parent with a smaller index, which lists `c` among
    /// its children and is one level less deep.
    pub proof fn lemma_node_links(&self, c: int)
        requires
            self.wf(),
            0 <= c < self.nodes_spec().len(),
        ensures
            self.depth_of(c) == self.nodes_spec()[c].depth_spec(),
            c == 0 ==> {
                &&& self.nodes_spec()[c].parent_spec() is None
                &&& self.nodes_spec()[c].depth_spec() == 0
                &&& self.par(c) == -1
            },
            c != 0 ==> {
                &&& self.nodes_spec()[c].parent_spec() is Some
                &&& self.nodes_spec()[c].parent_spec()->0@ == self.par(c)
                &&& 0 <= self.par(c) < c
                &&& self.nodes_spec()[c].depth_spec() == self.nodes_spec()[self.par(
                    c,
                )].depth_spec() + 1
                &&& self.has_child(self.par(c), c)
            },
    {
        if c != 0 {
            assert(0 <= self.par(c) < c);
            assert(Self::has_child_in(self.nodes@, self.par(c), c));
        }
    }

    /// The children of node `p`: each is a later node whose parent is `p`;
    /// they are listed in strictly increasing order, that is in the order
    /// they were committed and without repeats; and `has_child` holds of
    /// exactly these nodes.
    pub proof fn lemma_children(&self, p: int)
        requires
            self.wf(),
            0 <= p < self.nodes_spec().len(),
        ensures
            forall|j: int|
                0 <= j < self.nodes_spec()[p].children_spec().len() ==> {
                    let c = #[trigger] self.nodes_spec()[p].children_spec()[j]@ as int;
                    &&& p < c < self.nodes_spec().len()
                    &&& self.par(c) == p
                    &&& self.has_child(p, c)
                },
            forall|j1: int, j2: int|
                0 <= j1 < j2 < self.nodes_spec()[p].children_spec().len() ==> #[trigger] self.nodes_spec()[p].children_spec()[j1]@
                    < #[trigger] self.nodes_spec()[p].children_spec()[j2]@,
            forall|c: int|
                #[trigger] self.has_child(p, c) <==> exists|j: int|
                    0 <= j < self.nodes_spec()[p].children_spec().len()
                        && #[trigger] self.nodes_spec()[p].children_spec()[j]@ == c,
    {
        assert forall|j: int| 0 <= j < self.nodes_spec()[p].children_spec().len() implies {
            let c = #[trigger] self.nodes_spec()[p].children_spec()[j]@ as int;
            &&& p < c < self.nodes_spec().len()
            &&& self.par(c) == p
            &&& self.has_child(p, c)
        } by {
            let c = self.nodes@[p].children@[j].0 as int;
            assert(0 < c < self.nodes@.len() && Self::par_in(self.nodes@, c) == p);
            assert(0 <= Self::par_in(self.nodes@, c) < c);
        }
        assert forall|c: int|
            #[trigger] self.has_child(p, c) <==> exists|j: int|
                0 <= j < self.nodes_spec()[p].children_spec().len()
                    && #[trigger] self.nodes_spec()[p].children_spec()[j]@ == c by {
            if self.has_child(p, c) {
                let j = choose|j: int|
                    0 <= j < self.nodes@[p].children@.len() && #[trigger] self.nodes@[p].children@[j].0 == c;
                assert(self.nodes_spec()[p].children_spec()[j]@ == c);
            }
            if exists|j: int|
                0 <= j < self.nodes_spec()[p].children_spec().len()
                    && #[trigger] self.nodes_spec()[p].children_spec()[j]@ == c {
                let j = choose|j: int|
                    0 <= j < self.nodes_spec()[p].children_spec().len()
                        && #[trigger] self.nodes_spec()[p].children_spec()[j]@ == c;
                assert(self.nodes@[p].children@[j].0 == c);
            }
        }
    }

    /// An ancestor of a node of a well-formed tree is a node of it, no deeper
    /// than the node, and as deep only where it is the node itself.
    pub proof fn lemma_ancestor_depth(&self, c: int, n: int)
        requires
            self.wf(),
            0 <= n < self.nodes_spec().len(),
            self.is_ancestor(c, n),
        ensures
            0 <= c < self.nodes_spec().len(),
            self.depth_of(c) <= self.depth_of(n),
            self.depth_of(c) == self.depth_of(n) ==> c == n,
        decreases n,
    {
        if n != c {
            self.lemma_node_links(n);
            self.lemma_ancestor_depth(c, self.par(n));
        }
    }

    /// Being an ancestor is transitive.
    pub proof fn lemma_ancestor_trans(&self, c: int, m: int, n: int)
        requires
            self.is_ancestor(c, m),
            self.is_ancestor(m, n),
        ensures
            self.is_ancestor(c, n),
        decreases n,
    {
        if n != m {
            self.lemma_ancestor_trans(c, m, self.par(n));
        }
    }

    /// Two ancestors of one node at the same depth are the same node.
    pub proof fn lemma_ancestor_unique(&self, x: int, y: int, n: int)
        requires
            self.wf(),
            0 <= n < self.nodes_spec().len(),
            self.is_ancestor(x, n),
            self.is_ancestor(y, n),
            self.depth_of(x) == self.depth_of(y),
        ensures
            x == y,
        decreases n,
    {
        if x == n {
            self.lemma_ancestor_depth(y, n);
        } else if y == n {
            self.lemma_ancestor_depth(x, n);
        } else {
            self.lemma_node_links(n);
            self.lemma_ancestor_unique(x, y, self.par(n));
        }
    }

    /// `lca` is the deepest common ancestor of two nodes: an ancestor (or the
    /// node itself) of both, with no common ancestor deeper; and any node
    /// with that property is `lca` itself.
    pub proof fn lemma_lca_is_deepest_common_ancestor(&self, a: int, b: int)
        requires
            self.wf(),
            0 <= a < self.nodes_spec().len(),
            0 <= b < self.nodes_spec().len(),
        ensures
            self.is_deepest_common_ancestor(a, b, self.lca(a, b)),
            forall|l: int| #[trigger]
                self.is_deepest_common_ancestor(a, b, l) ==> l == self.lca(a, b),
        decreases a + b,
    {
        let l = self.lca(a, b);
        self.lemma_depth_zero(a);
        self.lemma_depth_zero(b);
        if a == b {
            assert forall|c: int|
                self.is_ancestor(c, a) && #[trigger] self.is_ancestor(c, b) implies self.depth_of(c)
                <= self.depth_of(l) by {
                self.lemma_ancestor_depth(c, a);
            }
        } else if self.depth_of(a) > self.depth_of(b) {
            self.lemma_node_links(a);
            let pa = self.par(a);
            self.lemma_lca_is_deepest_common_ancestor(pa, b);
            assert(l == self.lca(pa, b));
            assert(self.is_ancestor(l, a));
            assert forall|c: int|
                self.is_ancestor(c, a) && #[trigger] self.is_ancestor(c, b) implies self.depth_of(c)
                <= self.depth_of(l) by {
                self.lemma_ancestor_depth(c, b);
                assert(self.is_ancestor(c, pa));
            }
        } else if self.depth_of(b) > self.depth_of(a) {
            self.lemma_node_links(b);
            let pb = self.par(b);
            self.lemma_lca_is_deepest_common_ancestor(a, pb);
            assert(l == self.lca(a, pb));
            assert(self.is_ancestor(l, b));
            assert forall|c: int|
                self.is_ancestor(c, a) && #[trigger] self.is_ancestor(c, b) implies self.depth_of(c)
                <= self.depth_of(l) by {
                self.lemma_ancestor_depth(c, a);
                assert(self.is_ancestor(c, pb));
            }
        } else {
            self.lemma_node_links(a);
            self.lemma_node_links(b);
            let pa = self.par(a);
            let pb = self.par(b);
            self.lemma_lca_is_deepest_common_ancestor(pa, pb);
            assert(l == self.lca(pa, pb));
            assert(self.is_ancestor(l, a));
            assert(self.is_ancestor(l, b));
            assert forall|c: int|
                self.is_ancestor(c, a) && #[trigger] self.is_ancestor(c, b) implies self.depth_of(c)
                <= self.depth_of(l) by {
                if c == a {
                    self.lemma_ancestor_depth(a, b);
                }
                if c == b {
                    self.lemma_ancestor_depth(b, a);
                }
                assert(self.is_ancestor(c, pa));
                assert(self.is_ancestor(c, pb));
            }
        }
        assert forall|l2: int| #[trigger] self.is_deepest_common_ancestor(a, b, l2) implies l2 == l by {
            self.lemma_ancestor_depth(l2, a);
            self.lemma_ancestor_depth(l, a);
            self.lemma_ancestor_unique(l2, l, a);
        }
    }

    /// Climbing from `n` to one of its ancestors `anc` passes the nodes
    /// between them, `n` first: one per level, each an ancestor (or the node
    /// itself) of `n`, the `k`-th one `k` levels above `n`.
    pub proof fn lemma_climb_path(&self, n: int, anc: int)
        requires
            self.wf(),
            0 <= n < self.nodes_spec().len(),
            self.is_ancestor(anc, n),
        ensures
            self.climb(n, anc).len() + self.depth_of(anc) == self.depth_of(n),
            forall|k: int|
                0 <= k < self.climb(n, anc).len() ==> {
                    &&& self.is_ancestor(#[trigger] self.climb(n, anc)[k], n)
                    &&& self.depth_of(self.climb(n, anc)[k]) + k == self.depth_of(n)
                    &&& self.climb(n, anc)[k] != anc
                },
        decreases n,
    {
        if n != anc {
            self.lemma_node_links(n);
            let p = self.par(n);
            self.lemma_climb_path(p, anc);
            self.lemma_ancestor_depth(anc, p);
            assert(self.is_ancestor(p, p));
            assert(self.is_ancestor(p, n));
            assert(self.climb(n, anc) == seq![n] + self.climb(p, anc));
            assert forall|k: int| 0 <= k < self.climb(n, anc).len() implies {
                &&& self.is_ancestor(#[trigger] self.climb(n, anc)[k], n)
                &&& self.depth_of(self.climb(n, anc)[k]) + k == self.depth_of(n)
                &&& self.climb(n, anc)[k] != anc
            } by {
                if k > 0 {
                    assert(self.climb(n, anc)[k] == self.climb(p, anc)[k - 1]);
                    self.lemma_ancestor_trans(self.climb(p, anc)[k - 1], p, n);
                }
            }
        }
    }

    /// The paths of a checkout from the current node to node `to`, through
    /// the deepest common ancestor `l` of the two: the nodes reverted are the
    /// current node and its ancestors strictly below `l`, bottom up; the nodes
    /// applied are `to` and its ancestors strictly below `l`, top down. Any
    /// deepest common ancestor will do, for there is just one.
    pub proof fn lemma_checkout_paths(&self, to: int, l: int)
        requires
            self.wf(),
            0 <= to < self.nodes_spec().len(),
            self.is_deepest_common_ancestor(self.current()@ as int, to, l),
        ensures
            l == self.lca(self.current()@ as int, to),
            self.checkout_up(to).len() + self.depth_of(l) == self.depth_of(self.current()@ as int),
            forall|k: int|
                0 <= k < self.checkout_up(to).len() ==> {
                    &&& self.is_ancestor(#[trigger] self.checkout_up(to)[k], self.current()@ as int)
                    &&& self.depth_of(self.checkout_up(to)[k]) + k == self.depth_of(
                        self.current()@ as int,
                    )
                },
            self.checkout_down(to).len() + self.depth_of(l) == self.depth_of(to),
            forall|k: int|
                0 <= k < self.checkout_down(to).len() ==> {
                    &&& self.is_ancestor(#[trigger] self.checkout_down(to)[k], to)
                    &&& self.depth_of(self.checkout_down(to)[k]) == self.depth_of(l) + 1 + k
                },
    {
        let c = self.curr_node.0 as int;
        self.lemma_lca_is_deepest_common_ancestor(c, to);
        self.lemma_climb_path(c, l);
        self.lemma_climb_path(to, l);
        let down = self.climb(to, l);
        assert forall|k: int| 0 <= k < self.checkout_down(to).len() implies {
            &&& self.is_ancestor(#[trigger] self.checkout_down(to)[k], to)
            &&& self.depth_of(self.checkout_down(to)[k]) == self.depth_of(l) + 1 + k
        } by {
            assert(self.checkout_down(to)[k] == down[down.len() - 1 - k]);
        }
    }

    proof fn lemma_depth_zero(&self, i: int)
        requires
            self.wf(),
            0 <= i < self.nodes@.len(),
        ensures
            self.depth_of(i) == 0 <==> i == 0,
    {
        if i > 0 {
            assert(0 <= self.par(i) < i);
        }
    }

    proof fn lemma_lca(&self, a: int, b: int)
        requires
            self.wf(),
            0 <= a < self.nodes@.len(),
            0 <= b < self.nodes@.len(),
        ensures
            0 <= self.lca(a, b) < self.nodes@.len(),
            self.depth_of(self.lca(a, b)) <= self.depth_of(a),
            self.depth_of(self.lca(a, b)) <= self.depth_of(b),
            a != b && self.depth_of(a) == self.depth_of(b) ==> self.depth_of(self.lca(a, b))
                < self.depth_of(a),
        decreases a + b,
    {
        self.lemma_depth_zero(a);
        self.lemma_depth_zero(b);
        if a == b {
        } else if self.depth_of(a) > self.depth_of(b) {
            assert(0 <= self.par(a) < a);
            self.lemma_lca(self.par(a), b);
        } else if self.depth_of(b) > self.depth_of(a) {
            assert(0 <= self.par(b) < b);
            self.lemma_lca(a, self.par(b));
        } else {
            assert(0 <= self.par(a) < a);
            assert(0 <= self.par(b) < b);
            self.lemma_lca(self.par(a), self.par(b));
        }
    }
    proof fn lemma_climb_positive(&self, n: int, anc: int, k: int)
        requires
            0 <= k < self.climb(n, anc).len(),
        ensures
            0 < self.climb(n, anc)[k] < self.nodes@.len(),
        decreases n,
    {
        if k > 0 {
            self.lemma_climb_positive(self.par(n), anc, k - 1);
        }
    }
}

impl<Cmd: Default, E: Default> HistoryTree<E, Cmd> {
    /// Create a new history tree.
    pub fn new() -> (r: Self)
        ensures
            r.wf(),
            r.nodes_spec().len() == 1,
            r.current()@ == 0,
            r.nodes_spec()[0].parent_spec() is None,
            r.nodes_spec()[0].children_spec().len() == 0,
            r.nodes_spec()[0].depth_spec() == 0,
            call_ensures(Cmd::default, (), r.nodes_spec()[0].cmd_edit_spec().cmd),
            call_ensures(E::default, (), r.nodes_spec()[0].cmd_edit_spec().edit),
    {
        let r = HistoryTree {
            nodes: vec![
                HistoryTreeNode {
                    cmd_edit: CmdEdit::default(),
                    parent: None,
                    children: Vec::new(),
                    depth: 0,
                },
            ],
            curr_node: HistoryTreeNodeId::new(0),
        };
        assert(r.nodes@.len() == 1);
        r
    }
}


impl<E, Cmd> HistoryTree<E, Cmd> {
    /// Returns the id of the current node.
    pub fn curr_node(&self) -> (r: HistoryTreeNodeId)
        ensures
            r == self.current(),
            self.wf() ==> r@ < self.nodes_spec().len(),
    {
        self.curr_node
    }

    /// Returns an immutable reference to the node with the given id.
    pub fn node(&self, id: HistoryTreeNodeId) -> (r: &HistoryTreeNode<E, Cmd>)
        requires
            id@ < self.nodes_spec().len(),
        ensures
            *r == self.nodes_spec()[id@ as int],
    {
        &self.nodes[id.index()]
    }

    /// Returns parent node id of the node with the given id. `None` for the root.
    pub fn parent(&self, id: HistoryTreeNodeId) -> (r: Option<HistoryTreeNodeId>)
        requires
            id@ < self.nodes_spec().len(),
        ensures
            r == self.nodes_spec()[id@ as int].parent_spec(),
    {
        self.nodes[id.index()].parent
    }

    /// Returns an immutable reference to the command metadata at the given node.
    pub fn cmd(&self, id: HistoryTreeNodeId) -> (r: &Cmd)
        requires
            id@ < self.nodes_spec().len(),
        ensures
            *r == self.cmd_of(id@ as int),
    {
        &self.nodes[id.index()].cmd_edit.cmd
    }

    /// Returns a mutable reference to the command metadata at the given node.
    pub fn cmd_mut(&mut self, id: HistoryTreeNodeId) -> (r: &mut Cmd)
        requires
            id@ < old(self).nodes_spec().len(),
        ensures
            *r == old(self).cmd_of(id@ as int),
            final(self).current() == old(self).current(),
            final(self).nodes_spec().len() == old(self).nodes_spec().len(),
            final(self).cmd_of(id@ as int) == *final(r),
            final(self).edit_of(id@ as int) == old(self).edit_of(id@ as int),
            final(self).nodes_spec()[id@ as int].parent_spec() == old(self).nodes_spec()[id@ as int].parent_spec(),
            final(self).nodes_spec()[id@ as int].children_spec() == old(self).nodes_spec()[id@ as int].children_spec(),
            final(self).nodes_spec()[id@ as int].depth_spec() == old(self).nodes_spec()[id@ as int].depth_spec(),
            forall|i: int| 0 <= i < old(self).nodes_spec().len() && i != id@ ==>
                #[trigger] final(self).nodes_spec()[i] == old(self).nodes_spec()[i],
    {
        &mut self.nodes[id.index()].cmd_edit.cmd
    }
}

impl<Cmd, E> HistoryTree<E, Cmd> {
    /// Flush the target container and insert its changes into a new tree leaf
    /// under the current node as an edit along with additional metadata
    /// ("cmd").
    pub fn cmd_commit<T>(&mut self, cmd: Cmd, target: &mut T) where E: ExtractEdit<T>
        requires
            old(self).wf(),
        ensures
            final(self).wf(),
            final(self).nodes_spec().len() == old(self).nodes_spec().len() + 1,
            final(self).current()@ == old(self).nodes_spec().len(),
            final(self).cmd_of(old(self).nodes_spec().len() as int) == cmd,
            final(self).has_child(old(self).current()@ as int, final(self).current()@ as int),
            E::extracts(*old(target), *final(target), final(self).edit_of(old(self).nodes_spec().len() as int)),
            final(self).par(old(self).nodes_spec().len() as int) == old(self).current()@,
            final(self).nodes_spec()[old(self).nodes_spec().len() as int].children_spec().len() == 0,
            final(self).depth_of(old(self).nodes_spec().len() as int) == old(self).depth_of(old(self).current()@ as int) + 1,
            final(self).nodes_spec()[old(self).current()@ as int].children_spec()
                == old(self).nodes_spec()[old(self).current()@ as int].children_spec().push(final(self).current()),
            final(self).cmd_of(old(self).current()@ as int) == old(self).cmd_of(old(self).current()@ as int),
            final(self).edit_of(old(self).current()@ as int) == old(self).edit_of(old(self).current()@ as int),
            final(self).par(old(self).current()@ as int) == old(self).par(old(self).current()@ as int),
            final(self).depth_of(old(self).current()@ as int) == old(self).depth_of(old(self).current()@ as int),
            forall|i: int| 0 <= i < old(self).nodes_spec().len() && i != old(self).current()@ ==>
                #[trigger] final(self).nodes_spec()[i] == old(self).nodes_spec()[i],
    {
        let ghost old_nodes = self.nodes@;
        let edit = E::extract_edit(target);
        let curr = self.curr_node;
        proof {
            assert(old_nodes.len() == self.nodes.len());
            if curr.0 > 0 {
                assert(0 <= Self::par_in(old_nodes, curr.0 as int));
            }
            assert(old_nodes[curr.0 as int].depth <= curr.0);
        }
        let depth = self.nodes[curr.index()].depth + 1;
        self.nodes.push(HistoryTreeNode {
            cmd_edit: CmdEdit { cmd, edit },
            parent: Some(curr),
            children: Vec::new(),
            depth,
        });

        let node_id = HistoryTreeNodeId::new(self.nodes.len() - 1);
        self.nodes[curr.index()].children.push(node_id);

        self.curr_node = node_id;
        proof {
            let nodes = self.nodes@;
            let n = nodes.len();
            let c = curr.0 as int;
            assert forall|i: int| 0 < i < n implies {
                &&& nodes[i].parent is Some
                &&& 0 <= #[trigger] Self::par_in(nodes, i) < i
                &&& nodes[i].depth == nodes[Self::par_in(nodes, i)].depth + 1
                &&& nodes[i].depth <= i
            } by {
                if i < n - 1 {
                    assert(Self::par_in(old_nodes, i) == Self::par_in(nodes, i));
                    assert(0 <= Self::par_in(old_nodes, i) < i);
                }
            }
            assert forall|p: int, j: int|
                0 <= p < n && 0 <= j < nodes[p].children@.len() implies {
                    let ch = #[trigger] nodes[p].children@[j].0 as int;
                    &&& 0 < ch < n
                    &&& Self::par_in(nodes, ch) == p
                } by {
                if p == n - 1 {
                } else if p == c && j == nodes[p].children@.len() - 1 {
                } else {
                    assert(nodes[p].children@[j] == old_nodes[p].children@[j]);
                    let ch = old_nodes[p].children@[j].0 as int;
                    assert(0 < ch < n - 1 && Self::par_in(old_nodes, ch) == p);
                }
            }
            assert forall|ch: int| 0 < ch < n implies #[trigger] Self::has_child_in(
                nodes,
                Self::par_in(nodes, ch),
                ch,
            ) by {
                if ch == n - 1 {
                    let j = nodes[c].children@.len() - 1;
                    assert(nodes[c].children@[j].0 == ch);
                } else {
                    assert(Self::has_child_in(old_nodes, Self::par_in(old_nodes, ch), ch));
                    let p = Self::par_in(old_nodes, ch);
                    let j = choose|j: int|
                        0 <= j < old_nodes[p].children@.len() && #[trigger] old_nodes[p].children@[j].0
                            == ch;
                    assert(nodes[p].children@[j] == old_nodes[p].children@[j]);
                }
            }
            assert forall|p: int, j1: int, j2: int|
                0 <= p < n && 0 <= j1 < j2 < nodes[p].children@.len() implies #[trigger] nodes[p].children@[j1].0
                    < #[trigger] nodes[p].children@[j2].0 by {
                if p < n - 1 {
                    assert(nodes[p].children@[j1] == old_nodes[p].children@[j1]);
                    if p == c && j2 == nodes[p].children@.len() - 1 {
                        assert(0 < old_nodes[p].children@[j1].0 < n - 1);
                    } else {
                        assert(nodes[p].children@[j2] == old_nodes[p].children@[j2]);
                    }
                }
            }
            assert(Self::has_child_in(nodes, c, n - 1)) by {
                let j = nodes[c].children@.len() - 1;
                assert(nodes[c].children@[j].0 == n - 1);
            }
        }
    }
}

impl<Cmd: Default, E> HistoryTree<E, Cmd> {
    /// Flush the target container and insert its changes as an edit into a new
    /// tree leaf under the current node.
    pub fn commit<T>(&mut self, target: &mut T) where E: ExtractEdit<T>
        requires
            old(self).wf(),
        ensures
            final(self).wf(),
            final(self).nodes_spec().len() == old(self).nodes_spec().len() + 1,
            final(self).current()@ == old(self).nodes_spec().len(),
            call_ensures(Cmd::default, (), final(self).cmd_of(old(self).nodes_spec().len() as int)),
            final(self).has_child(old(self).current()@ as int, final(self).current()@ as int),
            E::extracts(*old(target), *final(target), final(self).edit_of(old(self).nodes_spec().len() as int)),
            final(self).par(old(self).nodes_spec().len() as int) == old(self).current()@,
            final(self).nodes_spec()[old(self).nodes_spec().len() as int].children_spec().len() == 0,
            final(self).depth_of(old(self).nodes_spec().len() as int) == old(self).depth_of(old(self).current()@ as int) + 1,
            final(self).nodes_spec()[old(self).current()@ as int].children_spec()
                == old(self).nodes_spec()[old(self).current()@ as int].children_spec().push(final(self).current()),
            final(self).cmd_of(old(self).current()@ as int) == old(self).cmd_of(old(self).current()@ as int),
            final(self).edit_of(old(self).current()@ as int) == old(self).edit_of(old(self).current()@ as int),
            final(self).par(old(self).current()@ as int) == old(self).par(old(self).current()@ as int),
            final(self).depth_of(old(self).current()@ as int) == old(self).depth_of(old(self).current()@ as int),
            forall|i: int| 0 <= i < old(self).nodes_spec().len() && i != old(self).current()@ ==>
                #[trigger] final(self).nodes_spec()[i] == old(self).nodes_spec()[i],
    {
        let cmd = Cmd::default();
        self.cmd_commit(cmd, target);
    }
}

impl<Cmd: Clone, E: Clone> HistoryTree<E, Cmd> {
    /// Undo the edit at the current tree node, moving one step upwards to the
    /// node's parent.
    ///
    /// This does not cause any changes to the tree topology, only the target
    /// container and current node are modified.
    pub fn undo<T>(&mut self, target: &mut T) -> (r: Option<Cmd>) where E: RevertEdit<T>
        requires
            old(self).wf(),
        ensures
            final(self).wf(),
            final(self).nodes_spec() == old(self).nodes_spec(),
            old(self).current()@ == 0 ==> {
                &&& r is None
                &&& final(self).current() == old(self).current()
                &&& *final(target) == *old(target)
            },
            old(self).current()@ != 0 ==> {
                &&& r is Some
                &&& cloned(old(self).cmd_of(old(self).current()@ as int), r->0)
                &&& final(self).current()@ == old(self).par(old(self).current()@ as int)
                &&& final(self).has_child(final(self).current()@ as int, old(self).current()@ as int)
                &&& exists|e: E, back: E|
                    cloned(old(self).edit_of(old(self).current()@ as int), e)
                        && #[trigger] e.reverts(*old(target), *final(target), back)
            },
    {
        let curr_node = self.curr_node;
        proof {
            if curr_node.0 != 0 {
                assert(0 <= self.par(curr_node.0 as int));
            }
        }
        let parent_node = self.nodes[curr_node.index()].parent?;
        let CmdEdit { cmd, edit } = self.nodes[curr_node.index()].cmd_edit.clone();
        let ghost before = *target;
        let back = edit.revert_edit(target);
        proof {
            assert(edit.reverts(before, *target, back));
        }
        self.curr_node = parent_node;
        proof {
            assert(Self::has_child_in(self.nodes@, self.par(curr_node.0 as int), curr_node.0 as int));
        }

        Some(cmd)
    }

    /// Redo the edit at the specified node, moving one step downwards.
    ///
    /// This does not cause any changes to the tree topology, only the target
    /// container and current node are modified.
    pub fn redo<T>(&mut self, target: &mut T, node: HistoryTreeNodeId) -> (r: Cmd) where
        E: ApplyEdit<T> + RevertEdit<T>,
        requires
            old(self).wf(),
            old(self).has_child(old(self).current()@ as int, node@ as int),
        ensures
            final(self).wf(),
            final(self).nodes_spec() == old(self).nodes_spec(),
            final(self).current() == node,
            cloned(old(self).cmd_of(node@ as int), r),
            exists|e: E|
                cloned(old(self).edit_of(node@ as int), e) && #[trigger] e.applies(
                    *old(target),
                    *final(target),
                ),
    {
        proof {
            let p = self.curr_node.0 as int;
            let j = choose|j: int|
                0 <= j < self.nodes@[p].children@.len() && #[trigger] self.nodes@[p].children@[j].0
                    == node@;
            assert(0 < self.nodes@[p].children@[j].0 < self.nodes@.len());
        }
        let CmdEdit { cmd, edit } = self.nodes[node.index()].cmd_edit.clone();
        let ghost before = *target;
        edit.apply_edit(target);
        proof {
            assert(edit.applies(before, *target));
        }
        self.curr_node = node;

        cmd
    }
}

impl<Cmd: Clone, E: Clone> HistoryTree<E, Cmd> {
    /// Move from the current node to the target node.
    ///
    /// First, a sequence of calls to [`Self::undo`] is made to climb to the
    /// lowest common ancestor, and then a sequence of calls to [`Self::redo`]
    /// is performed to descend to the target node.
    ///
    /// Returns the list of command metadata produced by the redo phase in the
    /// order they were applied. If already at `target_node`, an empty vector is
    /// returned.
    pub fn checkout<T>(&mut self, target: &mut T, target_node: HistoryTreeNodeId) -> (cmds: Vec<
        Cmd,
    >) where E: ApplyEdit<T> + RevertEdit<T>
        requires
            old(self).wf(),
            target_node@ < old(self).nodes_spec().len(),
        ensures
            final(self).wf(),
            final(self).nodes_spec() == old(self).nodes_spec(),
            final(self).current() == target_node,
            cmds@.len() == old(self).checkout_down(target_node@ as int).len(),
            forall|i: int|
                0 <= i < cmds@.len() ==> cloned(
                    old(self).cmd_of(old(self).checkout_down(target_node@ as int)[i]),
                    #[trigger] cmds@[i],
                ),
            exists|mid: T|
                old(self).reverts_along(old(self).checkout_up(target_node@ as int), *old(target), mid)
                    && #[trigger] old(self).applies_along(
                    old(self).checkout_down(target_node@ as int),
                    mid,
                    *final(target),
                ),
            old(self).is_deepest_common_ancestor(
                old(self).current()@ as int,
                target_node@ as int,
                old(self).lca(old(self).current()@ as int, target_node@ as int),
            ),
            forall|l: int|
                #[trigger] old(self).is_deepest_common_ancestor(
                    old(self).current()@ as int,
                    target_node@ as int,
                    l,
                ) ==> {
                    &&& cmds@.len() + old(self).depth_of(l) == old(self).depth_of(target_node@ as int)
                    &&& old(self).checkout_up(target_node@ as int).len() + old(self).depth_of(l)
                        == old(self).depth_of(old(self).current()@ as int)
                    &&& forall|k: int|
                        0 <= k < old(self).checkout_up(target_node@ as int).len() ==> {
                            &&& old(self).is_ancestor(
                                #[trigger] old(self).checkout_up(target_node@ as int)[k],
                                old(self).current()@ as int,
                            )
                            &&& old(self).depth_of(old(self).checkout_up(target_node@ as int)[k])
                                + k == old(self).depth_of(old(self).current()@ as int)
                        }
                    &&& forall|k: int|
                        0 <= k < cmds@.len() ==> {
                            &&& old(self).is_ancestor(
                                #[trigger] old(self).checkout_down(target_node@ as int)[k],
                                target_node@ as int,
                            )
                            &&& old(self).depth_of(old(self).checkout_down(target_node@ as int)[k])
                                == old(self).depth_of(l) + 1 + k
                        }
                },
    {
        let ghost tree = *self;
        let ghost t0 = *target;
        let ghost src0 = self.curr_node.0 as int;
        let ghost tgt = target_node.0 as int;
        let ghost l = tree.lca(src0, tgt);

        let mut source_node = self.curr_node;

        let mut target_path: Vec<HistoryTreeNodeId> = Vec::new();
        let mut source_depth = self.nodes[source_node.index()].depth;
        let mut target_depth = self.nodes[target_node.index()].depth;
        let mut aligned_target = target_node;
        let ghost mut undone: Seq<int> = Seq::empty();

        while source_depth > target_depth
            invariant
                tree.wf(),
                self.wf(),
                self.nodes@ == tree.nodes@,
                tgt < tree.nodes@.len(),
                tgt == target_node.0,
                source_node == self.curr_node,
                source_depth == tree.depth_of(source_node.0 as int),
                target_depth == tree.depth_of(tgt),
                aligned_target == target_node,
                tree.lca(source_node.0 as int, tgt) == l,
                undone + tree.climb(source_node.0 as int, l) == tree.climb(src0, l),
                tree.reverts_along(undone, t0, *target),
            decreases source_depth,
        {
            let ghost s = source_node.0 as int;
            let ghost before = *target;
            proof {
                tree.lemma_lca(s, tgt);
                tree.lemma_depth_zero(s);
                assert(0 <= tree.par(s) < s);
            }
            let undone_cmd = self.undo(target);
            proof {
                assert(undone_cmd is Some);
                let (e, back) = choose|e: E, back: E|
                    cloned(tree.edit_of(s), e) && #[trigger] e.reverts(before, *target, back);
                tree.lemma_reverts_along_push(undone, s, t0, before, *target, e, back);
                assert(tree.climb(s, l) == seq![s] + tree.climb(tree.par(s), l));
                assert(undone.push(s) + tree.climb(tree.par(s), l) =~= undone + tree.climb(s, l));
                undone = undone.push(s);
            }
            source_node = self.curr_node;
            source_depth -= 1;
        }

        while target_depth > source_depth
            invariant
                tree.wf(),
                self.wf(),
                self.nodes@ == tree.nodes@,
                tgt < tree.nodes@.len(),
                tgt == target_node.0,
                source_node == self.curr_node,
                source_depth == tree.depth_of(source_node.0 as int),
                source_depth <= target_depth,
                aligned_target.0 < tree.nodes@.len(),
                target_depth == tree.depth_of(aligned_target.0 as int),
                tree.lca(source_node.0 as int, aligned_target.0 as int) == l,
                undone + tree.climb(source_node.0 as int, l) == tree.climb(src0, l),
                tree.reverts_along(undone, t0, *target),
                target_path@.map_values(|id: HistoryTreeNodeId| id.0 as int) + tree.climb(
                    aligned_target.0 as int,
                    l,
                ) == tree.climb(tgt, l),
                target_path@.len() == 0 ==> aligned_target == target_node,
                target_path@.len() > 0 ==> target_path@[0] == target_node,
                target_path@.len() > 0 ==> tree.par(target_path@.last().0 as int)
                    == aligned_target.0,
                forall|k: int|
                    0 <= k < target_path@.len() - 1 ==> tree.par(#[trigger] target_path@[k].0 as int)
                        == target_path@[k + 1].0,
            decreases target_depth,
        {
            let ghost a = aligned_target.0 as int;
            let ghost old_path = target_path@;
            proof {
                tree.lemma_lca(source_node.0 as int, a);
                tree.lemma_depth_zero(a);
                assert(0 <= tree.par(a) < a);
            }
            target_path.push(aligned_target);
            aligned_target = self.nodes[aligned_target.index()].parent.unwrap();
            target_depth -= 1;
            proof {
                assert(tree.climb(a, l) == seq![a] + tree.climb(tree.par(a), l));
                assert(target_path@.map_values(|id: HistoryTreeNodeId| id.0 as int) =~= old_path.map_values(
                    |id: HistoryTreeNodeId| id.0 as int,
                ).push(a));
                assert(old_path.map_values(|id: HistoryTreeNodeId| id.0 as int).push(a) + tree.climb(
                    tree.par(a),
                    l,
                ) =~= old_path.map_values(|id: HistoryTreeNodeId| id.0 as int) + tree.climb(a, l));
            }
        }

        while source_node != aligned_target
            invariant
                tree.wf(),
                self.wf(),
                self.nodes@ == tree.nodes@,
                tgt < tree.nodes@.len(),
                tgt == target_node.0,
                source_node == self.curr_node,
                aligned_target.0 < tree.nodes@.len(),
                tree.depth_of(source_node.0 as int) == tree.depth_of(aligned_target.0 as int),
                tree.lca(source_node.0 as int, aligned_target.0 as int) == l,
                undone + tree.climb(source_node.0 as int, l) == tree.climb(src0, l),
                tree.reverts_along(undone, t0, *target),
                target_path@.map_values(|id: HistoryTreeNodeId| id.0 as int) + tree.climb(
                    aligned_target.0 as int,
                    l,
                ) == tree.climb(tgt, l),
                target_path@.len() == 0 ==> aligned_target == target_node,
                target_path@.len() > 0 ==> target_path@[0] == target_node,
                target_path@.len() > 0 ==> tree.par(target_path@.last().0 as int)
                    == aligned_target.0,
                forall|k: int|
                    0 <= k < target_path@.len() - 1 ==> tree.par(#[trigger] target_path@[k].0 as int)
                        == target_path@[k + 1].0,
            decreases tree.depth_of(source_node.0 as int),
        {
            let ghost s = source_node.0 as int;
            let ghost a = aligned_target.0 as int;
            let ghost before = *target;
            let ghost old_path = target_path@;
            proof {
                tree.lemma_lca(s, a);
                tree.lemma_depth_zero(s);
                tree.lemma_depth_zero(a);
                assert(0 <= tree.par(s) < s);
                assert(0 <= tree.par(a) < a);
            }
            let undone_cmd = self.undo(target);
            proof {
                assert(undone_cmd is Some);
                let (e, back) = choose|e: E, back: E|
                    cloned(tree.edit_of(s), e) && #[trigger] e.reverts(before, *target, back);
                tree.lemma_reverts_along_push(undone, s, t0, before, *target, e, back);
                assert(tree.climb(s, l) == seq![s] + tree.climb(tree.par(s), l));
                assert(undone.push(s) + tree.climb(tree.par(s), l) =~= undone + tree.climb(s, l));
                undone = undone.push(s);
            }
            source_node = self.curr_node;
            target_path.push(aligned_target);
            aligned_target = self.nodes[aligned_target.index()].parent.unwrap();
            proof {
                assert(tree.climb(a, l) == seq![a] + tree.climb(tree.par(a), l));
                assert(target_path@.map_values(|id: HistoryTreeNodeId| id.0 as int) =~= old_path.map_values(
                    |id: HistoryTreeNodeId| id.0 as int,
                ).push(a));
                assert(old_path.map_values(|id: HistoryTreeNodeId| id.0 as int).push(a) + tree.climb(
                    tree.par(a),
                    l,
                ) =~= old_path.map_values(|id: HistoryTreeNodeId| id.0 as int) + tree.climb(a, l));
            }
        }

        let ghost path = target_path@.map_values(|id: HistoryTreeNodeId| id.0 as int);
        let ghost mid = *target;
        let ghost down = tree.climb(tgt, l).reverse();
        proof {
            assert(undone + Seq::<int>::empty() =~= undone);
            assert(path + Seq::<int>::empty() =~= path);
            assert(tree.applies_along(down.take(0), mid, mid));
        }

        let mut cmds: Vec<Cmd> = Vec::new();
        let mut i = target_path.len();
        while i > 0
            invariant
                tree.wf(),
                self.wf(),
                self.nodes@ == tree.nodes@,
                0 <= i <= target_path@.len(),
                path == target_path@.map_values(|id: HistoryTreeNodeId| id.0 as int),
                path == tree.climb(tgt, l),
                tgt == target_node.0,
                down == path.reverse(),
                target_path@.len() == 0 ==> l == tgt,
                target_path@.len() > 0 ==> target_path@[0] == target_node,
                target_path@.len() > 0 ==> tree.par(target_path@.last().0 as int) == l,
                forall|k: int|
                    0 <= k < target_path@.len() - 1 ==> tree.par(#[trigger] target_path@[k].0 as int)
                        == target_path@[k + 1].0,
                i == target_path@.len() ==> self.curr_node.0 == l,
                i < target_path@.len() ==> self.curr_node == target_path@[i as int],
                cmds@.len() == target_path@.len() - i,
                forall|j: int|
                    0 <= j < cmds@.len() ==> cloned(tree.cmd_of(down[j]), #[trigger] cmds@[j]),
                tree.applies_along(down.take(cmds@.len() as int), mid, *target),
            decreases i,
        {
            i -= 1;
            let node = target_path[i];
            let ghost before = *target;
            let ghost k = cmds@.len() as int;
            proof {
                let c = node.0 as int;
                assert(path[i as int] == c);
                tree.lemma_climb_positive(tgt, l, i as int);
                assert(tree.has_child(tree.par(c), c));
                if i as int == target_path@.len() - 1 {
                    assert(tree.par(c) == l);
                } else {
                    assert(tree.par(c) == target_path@[i + 1].0);
                }
            }
            let cmd = self.redo(target, node);
            proof {
                let e = choose|e: E|
                    cloned(tree.edit_of(node.0 as int), e) && #[trigger] e.applies(before, *target);
                assert(down[k] == node.0 as int);
                tree.lemma_applies_along_push(down.take(k), node.0 as int, mid, before, *target, e);
                assert(down.take(k).push(node.0 as int) =~= down.take(k + 1));
            }
            cmds.push(cmd);
        }

        proof {
            assert(down.take(down.len() as int) =~= down);
            if target_path@.len() == 0 {
                assert(self.curr_node.0 == tgt);
            }
            assert(self.curr_node == target_node);
            assert(undone == tree.climb(src0, l));
            assert(tree.reverts_along(tree.climb(src0, l), t0, mid));
            assert(tree.applies_along(down, mid, *target));
            assert(tree.checkout_up(tgt) == tree.climb(src0, l));
            assert(tree.checkout_down(tgt) == down);
            assert(exists|m: T|
                tree.reverts_along(tree.checkout_up(tgt), t0, m) && #[trigger] tree.applies_along(
                    tree.checkout_down(tgt),
                    m,
                    *target,
                ));
        }
        proof {
            tree.lemma_lca_is_deepest_common_ancestor(src0, tgt);
            assert forall|l2: int|
                #[trigger] tree.is_deepest_common_ancestor(src0, tgt, l2) implies {
                    &&& cmds@.len() + tree.depth_of(l2) == tree.depth_of(tgt)
                    &&& tree.checkout_up(tgt).len() + tree.depth_of(l2) == tree.depth_of(src0)
                    &&& forall|k: int|
                        0 <= k < tree.checkout_up(tgt).len() ==> {
                            &&& tree.is_ancestor(#[trigger] tree.checkout_up(tgt)[k], src0)
                            &&& tree.depth_of(tree.checkout_up(tgt)[k]) + k == tree.depth_of(src0)
                        }
                    &&& forall|k: int|
                        0 <= k < cmds@.len() ==> {
                            &&& tree.is_ancestor(#[trigger] tree.checkout_down(tgt)[k], tgt)
                            &&& tree.depth_of(tree.checkout_down(tgt)[k]) == tree.depth_of(l2) + 1
                                + k
                        }
                } by {
                tree.lemma_checkout_paths(tgt, l2);
            }
        }
        cmds
    }
}

/// Undoing the edit of a node and then redoing that node gives back the
/// target's entries, for a target that applies deltas entry by entry and
/// where the reverse of the node's edit fits the target (as it does when that
/// edit led to it).
pub proof fn lemma_undo_then_redo_restores<
    K,
    V,
    C: Keyed<Key = K, Item = V> + ApplyDelta<DC>,
    DC: Keyed<Key = K, Item = V> + HalfDelta<K, V>,
    Cmd,
>(tree: HistoryTree<Delta<DC>, Cmd>, node: int, t0: C, t1: C, t2: C)
    requires
        applies_entrywise::<K, V, C, DC>(),
        delta_fits(
            t0.entries(),
            tree.edit_of(node).inserted.entries(),
            tree.edit_of(node).removed.entries(),
        ),
        exists|e: Delta<DC>, back: Delta<DC>|
            cloned(tree.edit_of(node), e) && #[trigger] e.reverts(t0, t1, back),
        exists|e: Delta<DC>| cloned(tree.edit_of(node), e) && #[trigger] e.applies(t1, t2),
    ensures
        t2.entries() == t0.entries(),
{
    let edit = tree.edit_of(node);
    let (e1, back) = choose|e: Delta<DC>, back: Delta<DC>|
        cloned(edit, e) && #[trigger] e.reverts(t0, t1, back);
    DC::lemma_cloned_entries(edit.removed, e1.removed);
    DC::lemma_cloned_entries(edit.inserted, e1.inserted);
    let d = choose|d: Delta<DC>|
        cloned(back.removed, d.removed) && cloned(back.inserted, d.inserted)
            && #[trigger] t0.delta_applied(d, t1);
    DC::lemma_cloned_entries(back.removed, d.removed);
    DC::lemma_cloned_entries(back.inserted, d.inserted);
    let e2 = choose|e: Delta<DC>| cloned(edit, e) && #[trigger] e.applies(t1, t2);
    DC::lemma_cloned_entries(edit.removed, e2.removed);
    DC::lemma_cloned_entries(edit.inserted, e2.inserted);
    lemma_apply_reverse_restores(t0.entries(), edit.inserted.entries(), edit.removed.entries());
    assert(t1.entries() == apply_entries(
        t0.entries(),
        edit.inserted.entries(),
        edit.removed.entries(),
    ));
    assert(t2.entries() == apply_entries(
        t1.entries(),
        edit.removed.entries(),
        edit.inserted.entries(),
    ));
}


/// Committing what a consistent recorder recorded into a node and then
/// undoing that node gives back the state when the recording began; redoing
/// it then gives back the state the recording led to. This holds of every
/// container that applies deltas entry by entry, such as maps and sets.
pub proof fn lemma_tree_undo_after_commit_restores<
    K,
    V,
    C: Keyed<Key = K, Item = V> + ApplyDelta<DC>,
    DC: Keyed<Key = K, Item = V> + HalfDelta<K, V>,
    Cmd,
>(
    tree: HistoryTree<Delta<DC>, Cmd>,
    node: int,
    rec0: Recorder<C, DC>,
    rec1: Recorder<C, DC>,
    rec2: Recorder<C, DC>,
    rec3: Recorder<C, DC>,
)
    requires
        applies_entrywise::<K, V, C, DC>(),
        rec0.consistent(),
        <Delta<DC> as ExtractEdit<Recorder<C, DC>>>::extracts(rec0, rec1, tree.edit_of(node)),
        exists|e: Delta<DC>, back: Delta<DC>|
            cloned(tree.edit_of(node), e) && #[trigger] e.reverts(rec1, rec2, back),
    ensures
        rec2.entries() == rec0.base(),
        (exists|e: Delta<DC>| cloned(tree.edit_of(node), e) && #[trigger] e.applies(rec2, rec3))
            ==> rec3.entries() == rec0.entries(),
{
    let edit = tree.edit_of(node);
    assert(edit == rec0.delta_spec());
    assert(rec1.entries() == rec0.entries());
    lemma_apply_reverse_restores(rec0.base(), rec0.removed_spec(), rec0.inserted_spec());
    crate::recorder::lemma_recorded_delta_replays(rec0);
    let (e1, back) = choose|e: Delta<DC>, back: Delta<DC>|
        cloned(edit, e) && #[trigger] e.reverts(rec1, rec2, back);
    DC::lemma_cloned_entries(edit.removed, e1.removed);
    DC::lemma_cloned_entries(edit.inserted, e1.inserted);
    let d1 = choose|d: Delta<DC>|
        cloned(back.removed, d.removed) && cloned(back.inserted, d.inserted)
            && #[trigger] rec1.delta_applied(d, rec2);
    DC::lemma_cloned_entries(back.removed, d1.removed);
    DC::lemma_cloned_entries(back.inserted, d1.inserted);
    assert(rec1.container_spec().delta_applied(d1, rec2.container_spec()));
    assert(rec2.entries() == apply_entries(
        rec1.entries(),
        edit.inserted.entries(),
        edit.removed.entries(),
    ));
    if exists|e: Delta<DC>| cloned(edit, e) && #[trigger] e.applies(rec2, rec3) {
        let e2 = choose|e: Delta<DC>| cloned(edit, e) && #[trigger] e.applies(rec2, rec3);
        DC::lemma_cloned_entries(edit.removed, e2.removed);
        DC::lemma_cloned_entries(edit.inserted, e2.inserted);
        assert(rec2.container_spec().delta_applied(e2, rec3.container_spec()));
        assert(rec3.entries() == apply_entries(
            rec2.entries(),
            edit.removed.entries(),
            edit.inserted.entries(),
        ));
    }
}

/// Committing what a consistent recorder over a vector recorded since it
/// began with the vector `start` into a node, and then undoing that node,
/// gives back `start`; redoing it then gives back the vector the recording
/// led to.
pub proof fn lemma_tree_vec_undo_after_commit_restores<V: Copy, Cmd>(
    start: Vec<V>,
    tree: HistoryTree<Delta<BTreeMap<usize, V>>, Cmd>,
    node: int,
    rec0: Recorder<Vec<V>, BTreeMap<usize, V>>,
    rec1: Recorder<Vec<V>, BTreeMap<usize, V>>,
    rec2: Recorder<Vec<V>, BTreeMap<usize, V>>,
    rec3: Recorder<Vec<V>, BTreeMap<usize, V>>,
)
    requires
        rec0.consistent(),
        rec0.base() == start.entries(),
        <Delta<BTreeMap<usize, V>> as ExtractEdit<Recorder<Vec<V>, BTreeMap<usize, V>>>>::extracts(
            rec0,
            rec1,
            tree.edit_of(node),
        ),
        exists|e: Delta<BTreeMap<usize, V>>, back: Delta<BTreeMap<usize, V>>|
            cloned(tree.edit_of(node), e) && #[trigger] e.reverts(rec1, rec2, back),
    ensures
        rec2.container_spec()@ == start@,
        (exists|e: Delta<BTreeMap<usize, V>>|
            cloned(tree.edit_of(node), e) && #[trigger] e.applies(rec2, rec3))
            ==> rec3.container_spec()@ == rec0.container_spec()@,
{
    let edit = tree.edit_of(node);
    let c0 = rec0.container_spec();
    assert(edit == rec0.delta_spec());
    assert(rec1.container_spec() == c0);
    assert(c0.len() == c0@.len());
    assert(start.len() == start@.len());
    crate::recorder::lemma_recorded_delta_replays(rec0);
    assert forall|k: usize| #[trigger] rec0.removed_spec().contains_key(k) implies k
        < usize::MAX by {
        assert(start.entries().contains_key(k));
    }
    assert forall|k: usize| #[trigger] rec0.inserted_spec().contains_key(k) implies k
        < usize::MAX by {
        assert(c0.entries().contains_key(k));
    }
    let (e1, back) = choose|e: Delta<BTreeMap<usize, V>>, back: Delta<BTreeMap<usize, V>>|
        cloned(edit, e) && #[trigger] e.reverts(rec1, rec2, back);
    let d1 = choose|d: Delta<BTreeMap<usize, V>>|
        cloned(back.removed, d.removed) && cloned(back.inserted, d.inserted)
            && #[trigger] rec1.delta_applied(d, rec2);
    assert(d1.removed@ == rec0.inserted_spec());
    assert(d1.inserted@ == rec0.removed_spec());
    crate::delta::lemma_vec_applied_entries(
        c0@,
        rec0.inserted_spec(),
        rec0.removed_spec(),
        start@,
    );
    if exists|e: Delta<BTreeMap<usize, V>>| cloned(edit, e) && #[trigger] e.applies(rec2, rec3) {
        let e2 = choose|e: Delta<BTreeMap<usize, V>>|
            cloned(edit, e) && #[trigger] e.applies(rec2, rec3);
        assert(e2.removed@ == rec0.removed_spec());
        assert(e2.inserted@ == rec0.inserted_spec());
        crate::delta::lemma_vec_applied_entries(
            start@,
            rec0.removed_spec(),
            rec0.inserted_spec(),
            c0@,
        );
    }
}

/// Committing what a consistent recorder over a double-ended queue recorded
/// since it began with the queue `start` into a node, and then undoing that
/// node, gives back `start`; redoing it then gives back the queue the
/// recording led to.
pub proof fn lemma_tree_vecdeque_undo_after_commit_restores<V: Copy, Cmd>(
    start: VecDeque<V>,
    tree: HistoryTree<Delta<BTreeMap<usize, V>>, Cmd>,
    node: int,
    rec0: Recorder<VecDeque<V>, BTreeMap<usize, V>>,
    rec1: Recorder<VecDeque<V>, BTreeMap<usize, V>>,
    rec2: Recorder<VecDeque<V>, BTreeMap<usize, V>>,
    rec3: Recorder<VecDeque<V>, BTreeMap<usize, V>>,
)
    requires
        rec0.consistent(),
        rec0.base() == start.entries(),
        <Delta<BTreeMap<usize, V>> as ExtractEdit<Recorder<VecDeque<V>, BTreeMap<usize, V>>>>::extracts(
            rec0,
            rec1,
            tree.edit_of(node),
        ),
        exists|e: Delta<BTreeMap<usize, V>>, back: Delta<BTreeMap<usize, V>>|
            cloned(tree.edit_of(node), e) && #[trigger] e.reverts(rec1, rec2, back),
    ensures
        rec2.container_spec()@ == start@,
        (exists|e: Delta<BTreeMap<usize, V>>|
            cloned(tree.edit_of(node), e) && #[trigger] e.applies(rec2, rec3))
            ==> rec3.container_spec()@ == rec0.container_spec()@,
{
    broadcast use vstd::std_specs::vecdeque::group_vec_dequeue_axioms;

    let edit = tree.edit_of(node);
    let c0 = rec0.container_spec();
    assert(edit == rec0.delta_spec());
    assert(rec1.container_spec() == c0);
    assert(c0.len() == c0@.len());
    assert(start.len() == start@.len());
    crate::recorder::lemma_recorded_delta_replays(rec0);
    assert forall|k: usize| #[trigger] rec0.removed_spec().contains_key(k) implies k
        < usize::MAX by {
        assert(start.entries().contains_key(k));
    }
    assert forall|k: usize| #[trigger] rec0.inserted_spec().contains_key(k) implies k
        < usize::MAX by {
        assert(c0.entries().contains_key(k));
    }
    let (e1, back) = choose|e: Delta<BTreeMap<usize, V>>, back: Delta<BTreeMap<usize, V>>|
        cloned(edit, e) && #[trigger] e.reverts(rec1, rec2, back);
    let d1 = choose|d: Delta<BTreeMap<usize, V>>|
        cloned(back.removed, d.removed) && cloned(back.inserted, d.inserted)
            && #[trigger] rec1.delta_applied(d, rec2);
    assert(d1.removed@ == rec0.inserted_spec());
    assert(d1.inserted@ == rec0.removed_spec());
    crate::delta::lemma_vec_applied_entries(
        c0@,
        rec0.inserted_spec(),
        rec0.removed_spec(),
        start@,
    );
    if exists|e: Delta<BTreeMap<usize, V>>| cloned(edit, e) && #[trigger] e.applies(rec2, rec3) {
        let e2 = choose|e: Delta<BTreeMap<usize, V>>|
            cloned(edit, e) && #[trigger] e.applies(rec2, rec3);
        assert(e2.removed@ == rec0.removed_spec());
        assert(e2.inserted@ == rec0.inserted_spec());
        crate::delta::lemma_vec_applied_entries(
            start@,
            rec0.removed_spec(),
            rec0.inserted_spec(),
            c0@,
        );
    }
}

/// Committing a snapshot of a target into a node and then undoing that node
/// leaves the target a clone of the snapshot's state, itself a clone of what
/// the target was at the commit; redoing the node does the same again. Where clones are faithful, the target is
/// back where it was.
pub proof fn lemma_tree_snapshot_undo_after_commit<T: Clone, Cmd>(
    tree: HistoryTree<Snapshot<T>, Cmd>,
    node: int,
    t0: T,
    t1: T,
    t2: T,
    t3: T,
)
    requires
        <Snapshot<T> as ExtractEdit<T>>::extracts(t0, t1, tree.edit_of(node)),
        exists|e: Snapshot<T>, back: Snapshot<T>|
            cloned(tree.edit_of(node), e) && #[trigger] e.reverts(t1, t2, back),
    ensures
        t1 == t0,
        cloned(t0, tree.edit_of(node).state_spec()),
        cloned(tree.edit_of(node).state_spec(), t2),
        (exists|e: Snapshot<T>| cloned(tree.edit_of(node), e) && #[trigger] e.applies(t2, t3))
            ==> cloned(tree.edit_of(node).state_spec(), t3),
        (forall|a: T, b: T| #[trigger] cloned(a, b) ==> a == b) ==> t2 == t0,
{
    let edit = tree.edit_of(node);
    let (e1, back) = choose|e: Snapshot<T>, back: Snapshot<T>|
        cloned(edit, e) && #[trigger] e.reverts(t1, t2, back);
    assert(cloned(edit.state_spec(), e1.state_spec()));
    if exists|e: Snapshot<T>| cloned(edit, e) && #[trigger] e.applies(t2, t3) {
        let e2 = choose|e: Snapshot<T>| cloned(edit, e) && #[trigger] e.applies(t2, t3);
        assert(cloned(edit.state_spec(), e2.state_spec()));
    }
    if forall|a: T, b: T| #[trigger] cloned(a, b) ==> a == b {
        assert(cloned(t0, edit.state_spec()));
        assert(cloned(edit.state_spec(), e1.state_spec()));
    }
}

} // verus!
