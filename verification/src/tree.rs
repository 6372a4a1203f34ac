use vstd::prelude::*;
use crate::edge::Edge;
use crate::edge::SCALE;
use crate::game::GameRep;
use crate::node::GameState;
use crate::node::Node;
use crate::params::MctsParams;

verus! {

/// One slot of the transposition side table: backed-up statistics keyed
/// by position hash. A slot with `visits == 0` is empty.
#[derive(Clone, Copy, Debug)]
pub struct HashEntry {
    pub hash: u64,
    pub visits: u32,
    pub wins: u64,
}

/// Fixed-capacity arena of nodes with an LRU recency list, a synthetic
/// parent edge for the root, and a transposition side table. Nodes are
/// allocated sequentially until the capacity is reached; afterwards the
/// least-recently-used node's slot is reused.
pub struct Tree {
    pub nodes: Vec<Node>,
    pub cap: usize,
    pub root: i32,
    pub lru_head: i32,
    pub lru_tail: i32,
    pub root_edge: Edge,
    pub table: Vec<HashEntry>,
}

impl Tree {
    /// `i` is a valid arena index.
    pub open spec fn idx_ok(self, i: int) -> bool {
        0 <= i < self.nodes@.len()
    }

    /// `i` is the sentinel or a valid arena index.
    pub open spec fn link_ok(self, i: int) -> bool {
        i == -1 || self.idx_ok(i)
    }

    /// A stored node: edges well-formed, all links sentinel or in range.
    pub open spec fn node_ok(self, n: Node) -> bool {
        &&& n.inv()
        &&& self.link_ok(n.parent as int)
        &&& self.link_ok(n.lru_prev as int)
        &&& self.link_ok(n.lru_next as int)
        &&& forall|j: int|
            0 <= j < n.actions@.len() ==> self.link_ok((#[trigger] n.actions@[j]).ptr as int)
    }

    /// The recency links of node `i` mirror back: its successor's
    /// predecessor is `i`, its predecessor's successor is `i`.
    pub open spec fn lru_links_at(self, i: int) -> bool {
        &&& ((self.nodes@[i].lru_next != -1 && self.idx_ok(self.nodes@[i].lru_next as int))
            ==> self.nodes@[self.nodes@[i].lru_next as int].lru_prev as int == i)
        &&& ((self.nodes@[i].lru_prev != -1 && self.idx_ok(self.nodes@[i].lru_prev as int))
            ==> self.nodes@[self.nodes@[i].lru_prev as int].lru_next as int == i)
    }

    /// Node `i`'s recency links avoid slot `v`.
    pub open spec fn no_link_to(self, i: int, v: int) -> bool {
        &&& self.nodes@[i].lru_prev != v
        &&& self.nodes@[i].lru_next != v
    }

    /// Local consistency of the doubly-linked recency list: a live
    /// arena has a head and a tail, the head has no predecessor, the
    /// tail no successor, and the forward and backward links mirror
    /// each other at every node.
    pub open spec fn lru_wf(self) -> bool {
        &&& ((self.lru_head != -1 && self.idx_ok(self.lru_head as int))
            ==> self.nodes@[self.lru_head as int].lru_prev == -1)
        &&& ((self.lru_tail != -1 && self.idx_ok(self.lru_tail as int))
            ==> self.nodes@[self.lru_tail as int].lru_next == -1)
        &&& forall|i: int| self.idx_ok(i) ==> #[trigger] self.lru_links_at(i)
    }

    /// Mutating a node's non-recency fields preserves the recency
    /// list's local consistency.
    proof fn lemma_lru_wf_preserved(pre: Tree, post: Tree)
        requires
            pre.lru_wf(),
            post.nodes@.len() == pre.nodes@.len(),
            post.lru_head == pre.lru_head,
            post.lru_tail == pre.lru_tail,
            forall|i: int|
                0 <= i < pre.nodes@.len() ==> ((#[trigger] post.nodes@[i]).lru_prev
                    == pre.nodes@[i].lru_prev && post.nodes@[i].lru_next
                    == pre.nodes@[i].lru_next),
        ensures
            post.lru_wf(),
    {
        assert forall|i: int| post.idx_ok(i) implies #[trigger] post.lru_links_at(i) by {
            assert(pre.lru_links_at(i));
            let nx = post.nodes@[i].lru_next as int;
            let pv = post.nodes@[i].lru_prev as int;
            if post.nodes@[i].lru_next != -1 && 0 <= nx < post.nodes@.len() {
                assert(pre.lru_links_at(nx));
            }
            if post.nodes@[i].lru_prev != -1 && 0 <= pv < post.nodes@.len() {
                assert(pre.lru_links_at(pv));
            }
        };
    }

    /// Appending nodes with cleared recency links preserves the list's
    /// local consistency, as long as the old links stayed in the old
    /// range.
    proof fn lemma_lru_wf_append(pre: Tree, post: Tree)
        requires
            pre.lru_wf(),
            post.nodes@.len() >= pre.nodes@.len(),
            post.lru_head == pre.lru_head,
            post.lru_tail == pre.lru_tail,
            forall|i: int|
                0 <= i < pre.nodes@.len() ==> ((#[trigger] post.nodes@[i]).lru_prev
                    == pre.nodes@[i].lru_prev && post.nodes@[i].lru_next
                    == pre.nodes@[i].lru_next),
            forall|i: int|
                0 <= i < pre.nodes@.len() ==> ((#[trigger] pre.nodes@[i]).lru_prev
                    < pre.nodes@.len() && pre.nodes@[i].lru_next < pre.nodes@.len()),
            forall|i: int|
                pre.nodes@.len() <= i < post.nodes@.len() ==> ((#[trigger] post.nodes@[
                    i]).lru_prev == -1 && post.nodes@[i].lru_next == -1),
            pre.lru_head < pre.nodes@.len(),
            pre.lru_tail < pre.nodes@.len(),
        ensures
            post.lru_wf(),
    {
        assert forall|k: int| post.idx_ok(k) implies #[trigger] post.lru_links_at(k) by {
            if k < pre.nodes@.len() {
                assert(pre.lru_links_at(k));
                let nx = post.nodes@[k].lru_next as int;
                let pv = post.nodes@[k].lru_prev as int;
                if 0 <= nx < pre.nodes@.len() {
                    assert(pre.lru_links_at(nx));
                }
                if 0 <= pv < pre.nodes@.len() {
                    assert(pre.lru_links_at(pv));
                }
            }
        };
    }

    /// Well-formedness of the whole tree store.
    pub open spec fn wf(self) -> bool {
        &&& 1 <= self.cap <= i32::MAX as int
        &&& self.nodes@.len() <= self.cap
        &&& self.table@.len() >= 1
        &&& self.link_ok(self.root as int)
        &&& (self.nodes@.len() == 0 ==> self.root == -1 && self.lru_head == -1
            && self.lru_tail == -1)
        &&& self.link_ok(self.lru_head as int)
        &&& self.link_ok(self.lru_tail as int)
        &&& self.lru_wf()
        &&& self.root_edge.inv()
        &&& forall|i: int| self.idx_ok(i) ==> self.node_ok(#[trigger] self.nodes@[i])
        &&& forall|i: int|
            0 <= i < self.table@.len() ==> (#[trigger] self.table@[i]).wins as int
                <= self.table@[i].visits as int * SCALE as int
    }

    /// The edge reached through `ptr`/`idx`: the synthetic root edge for
    /// the sentinel parent, otherwise the `idx`-th edge of node `ptr`.
    pub open spec fn edge_spec(self, ptr: i32, idx: usize) -> Edge {
        if ptr == -1 {
            self.root_edge
        } else {
            self.nodes@[ptr as int].actions@[idx as int]
        }
    }

    /// A fresh empty tree with node capacity `cap` and a transposition
    /// table of the same number of slots.
    pub fn new(cap: usize) -> (r: Self)
        requires
            1 <= cap <= i32::MAX as int,
        ensures
            r.wf(),
            r.nodes@.len() == 0,
            r.cap == cap,
            r.table@.len() == cap,
            forall|k: int| 0 <= k < r.table@.len() ==> (#[trigger] r.table@[k]).visits == 0,
            r.root_edge.visits == 0,
            r.root_edge.wins == 0,
    {
        let mut table: Vec<HashEntry> = Vec::new();
        let mut i: usize = 0;
        while i < cap
            invariant
                i <= cap,
                table@.len() == i,
                forall|k: int|
                    0 <= k < table@.len() ==> (#[trigger] table@[k]).visits == 0
                        && table@[k].wins == 0,
            decreases cap - i,
        {
            table.push(HashEntry { hash: 0, visits: 0, wins: 0 });
            i = i + 1;
        }
        Tree {
            nodes: Vec::new(),
            cap,
            root: -1,
            lru_head: -1,
            lru_tail: -1,
            root_edge: Edge::default(),
            table,
        }
    }

    /// Number of live nodes.
    pub fn len(&self) -> (r: usize)
        ensures
            r == self.nodes@.len(),
    {
        self.nodes.len()
    }

    /// Node capacity of the arena.
    pub fn cap(&self) -> (r: usize)
        ensures
            r == self.cap,
    {
        self.cap
    }

    /// Index of the current root node (-1 while the tree is empty).
    pub fn root_node(&self) -> (r: i32)
        ensures
            r == self.root,
    {
        self.root
    }

    pub fn set_root(&mut self, i: i32)
        requires
            old(self).wf(),
            old(self).idx_ok(i as int),
        ensures
            final(self).wf(),
            *final(self) == (Tree { root: i, ..*old(self) }),
    {
        self.root = i;
        proof {
            Tree::lemma_lru_wf_preserved(*old(self), *self);
        }
    }

    /// Read access to a stored node.
    pub fn node(&self, i: i32) -> (r: &Node)
        requires
            self.idx_ok(i as int),
        ensures
            r == self.nodes@[i as int],
    {
        &self.nodes[i as usize]
    }

    /// Copy of the edge reached through `ptr`/`idx`; the synthetic root
    /// edge when `ptr` is the sentinel.
    pub fn edge(&self, ptr: i32, idx: usize) -> (r: Edge)
        requires
            self.wf(),
            ptr == -1 || (self.idx_ok(ptr as int) && idx < self.nodes@[ptr as int].actions@.len()),
        ensures
            r == self.edge_spec(ptr, idx),
            r.inv(),
    {
        if ptr == -1 {
            self.root_edge
        } else {
            self.nodes[ptr as usize].actions[idx]
        }
    }

    /// The edge leading into node `ptr`, read through the node's parent
    /// and action fields: the synthetic root edge for a detached node,
    /// and also — defensively — when the recorded pair no longer names
    /// an edge because the parent's slot was reused after eviction.
    pub open spec fn parent_edge_spec(self, ptr: i32) -> Edge {
        let n = self.nodes@[ptr as int];
        if n.parent == -1 {
            self.root_edge
        } else if self.idx_ok(n.parent as int) && n.action < self.nodes@[
            n.parent as int].actions@.len() {
            self.nodes@[n.parent as int].actions@[n.action as int]
        } else {
            self.root_edge
        }
    }

    /// Copy of the edge leading into node `ptr`; see `parent_edge_spec`.
    pub fn parent_edge(&self, ptr: i32) -> (r: Edge)
        requires
            self.wf(),
            self.idx_ok(ptr as int),
        ensures
            r == self.parent_edge_spec(ptr),
            r.inv(),
    {
        let p = self.nodes[ptr as usize].parent;
        let a = self.nodes[ptr as usize].action;
        if p == -1 {
            self.root_edge
        } else if a < self.nodes[p as usize].actions.len() {
            self.nodes[p as usize].actions[a]
        } else {
            self.root_edge
        }
    }

    /// The edge statistics after one backed-up result: one more visit
    /// and `result` more wins, saturating at the largest visit count.
    pub open spec fn edge_after_update(e: Edge, result: u64) -> Edge {
        if e.visits < u32::MAX {
            Edge { visits: (e.visits + 1) as u32, wins: (e.wins + result) as u64, ..e }
        } else {
            e
        }
    }

    /// Adds one backed-up result to the edge reached through `ptr`/`idx`
    /// and returns the edge's new statistics. An out-of-range pair —
    /// possible only after the slot of an evicted node was reused —
    /// changes nothing and returns empty statistics.
    pub fn update_edge_stats(&mut self, ptr: i32, idx: usize, result: u64) -> (r: (u32, u64))
        requires
            old(self).wf(),
            result <= SCALE,
        ensures
            final(self).wf(),
            final(self).cap == old(self).cap,
            final(self).root == old(self).root,
            final(self).lru_head == old(self).lru_head,
            final(self).lru_tail == old(self).lru_tail,
            final(self).table@ == old(self).table@,
            final(self).nodes@.len() == old(self).nodes@.len(),
            r.1 as int <= r.0 as int * SCALE as int,
            ptr == -1 ==> {
                &&& final(self).nodes@ == old(self).nodes@
                &&& final(self).root_edge == Tree::edge_after_update(old(self).root_edge, result)
                &&& r == (final(self).root_edge.visits, final(self).root_edge.wins)
            },
            ptr != -1 ==> final(self).root_edge == old(self).root_edge,
            forall|i: int|
                old(self).idx_ok(i) && i != ptr as int ==> final(self).nodes@[i]
                    == old(self).nodes@[i],
            (ptr != -1 && old(self).idx_ok(ptr as int)
                && idx < old(self).nodes@[ptr as int].actions@.len()) ==> {
                &&& final(self).nodes@[ptr as int].actions@ == old(self).nodes@[
                    ptr as int].actions@.update(idx as int, Tree::edge_after_update(
                    old(self).nodes@[ptr as int].actions@[idx as int], result))
                &&& final(self).nodes@[ptr as int] == (Node {
                    actions: final(self).nodes@[ptr as int].actions,
                    ..old(self).nodes@[ptr as int]
                })
                &&& r == (final(self).nodes@[ptr as int].actions@[idx as int].visits,
                    final(self).nodes@[ptr as int].actions@[idx as int].wins)
            },
            (ptr != -1 && !(old(self).idx_ok(ptr as int)
                && idx < old(self).nodes@[ptr as int].actions@.len())) ==> {
                &&& final(self).nodes@ == old(self).nodes@
                &&& r == (0u32, 0u64)
            },
    {
        let empty: Vec<Edge> = Vec::new();
        if ptr == -1 {
            self.root_edge.update(result, &empty);
            proof {
                Tree::lemma_lru_wf_preserved(*old(self), *self);
            }
            (self.root_edge.visits(), self.root_edge.wins())
        } else if 0 <= ptr && (ptr as usize) < self.nodes.len() {
            let p = ptr as usize;
            if idx < self.nodes[p].actions.len() {
                let mut e = self.nodes[p].actions[idx];
                e.update(result, &empty);
                self.nodes[p].actions[idx] = e;
                proof {
                    assert(self.nodes@[ptr as int].actions@ =~= old(self).nodes@[
                        ptr as int].actions@.update(idx as int, Tree::edge_after_update(
                        old(self).nodes@[ptr as int].actions@[idx as int], result)));
                    Tree::lemma_lru_wf_preserved(*old(self), *self);
                }
                (e.visits(), e.wins())
            } else {
                (0, 0)
            }
        } else {
            (0, 0)
        }
    }

    /// Points the edge `idx` of node `i` at the child slot `ptr`.
    pub fn set_edge_ptr(&mut self, i: i32, idx: usize, ptr: i32)
        requires
            old(self).wf(),
            old(self).idx_ok(i as int),
            idx < old(self).nodes@[i as int].actions@.len(),
            old(self).link_ok(ptr as int),
        ensures
            final(self).wf(),
            final(self).cap == old(self).cap,
            final(self).root == old(self).root,
            final(self).lru_head == old(self).lru_head,
            final(self).lru_tail == old(self).lru_tail,
            final(self).table@ == old(self).table@,
            final(self).root_edge == old(self).root_edge,
            final(self).nodes@.len() == old(self).nodes@.len(),
            forall|j: int|
                old(self).idx_ok(j) && j != i as int ==> final(self).nodes@[j]
                    == old(self).nodes@[j],
            final(self).nodes@[i as int].actions@ == old(self).nodes@[i as int].actions@.update(
                idx as int, (Edge { ptr, ..old(self).nodes@[i as int].actions@[idx as int] })),
            final(self).nodes@[i as int] == (Node {
                actions: final(self).nodes@[i as int].actions,
                ..old(self).nodes@[i as int]
            }),
    {
        let iu = i as usize;
        let mut e = self.nodes[iu].actions[idx];
        e.set_ptr(ptr);
        self.nodes[iu].actions[idx] = e;
        proof {
            Tree::lemma_lru_wf_preserved(*old(self), *self);
        }
    }

    /// Sets the proven state of node `i`.
    pub fn set_node_state(&mut self, i: i32, state: GameState)
        requires
            old(self).wf(),
            old(self).idx_ok(i as int),
        ensures
            final(self).wf(),
            final(self).cap == old(self).cap,
            final(self).root == old(self).root,
            final(self).lru_head == old(self).lru_head,
            final(self).lru_tail == old(self).lru_tail,
            final(self).table@ == old(self).table@,
            final(self).root_edge == old(self).root_edge,
            final(self).nodes@.len() == old(self).nodes@.len(),
            forall|j: int|
                old(self).idx_ok(j) && j != i as int ==> final(self).nodes@[j]
                    == old(self).nodes@[j],
            final(self).nodes@[i as int] == (Node { state, ..old(self).nodes@[i as int] }),
    {
        self.nodes[i as usize].state = state;
        proof {
            Tree::lemma_lru_wf_preserved(*old(self), *self);
        }
    }

    /// Expands node `i` from the given position: see `Node::expand`.
    pub fn expand_node<T: GameRep, const ROOT: bool>(
        &mut self,
        i: i32,
        pos: &T,
        params: &MctsParams,
    )
        requires
            old(self).wf(),
            old(self).idx_ok(i as int),
            old(self).nodes@[i as int].actions@.len() == 0,
        ensures
            final(self).wf(),
            final(self).cap == old(self).cap,
            final(self).root == old(self).root,
            final(self).lru_head == old(self).lru_head,
            final(self).lru_tail == old(self).lru_tail,
            final(self).table@ == old(self).table@,
            final(self).root_edge == old(self).root_edge,
            final(self).nodes@.len() == old(self).nodes@.len(),
            forall|j: int|
                old(self).idx_ok(j) && j != i as int ==> final(self).nodes@[j]
                    == old(self).nodes@[j],
            final(self).nodes@[i as int].state == old(self).nodes@[i as int].state,
            final(self).nodes@[i as int].hash == old(self).nodes@[i as int].hash,
            final(self).nodes@[i as int].parent == old(self).nodes@[i as int].parent,
            final(self).nodes@[i as int].action == old(self).nodes@[i as int].action,
            final(self).nodes@[i as int].lru_prev == old(self).nodes@[i as int].lru_prev,
            final(self).nodes@[i as int].lru_next == old(self).nodes@[i as int].lru_next,
            forall|j: int|
                0 <= j < final(self).nodes@[i as int].actions@.len() ==> {
                    &&& (#[trigger] final(self).nodes@[i as int].actions@[j]).ptr == -1
                    &&& final(self).nodes@[i as int].actions@[j].visits == 0
                    &&& final(self).nodes@[i as int].actions@[j].wins == 0
                },
    {
        let n = &mut self.nodes[i as usize];
        n.expand::<T, ROOT>(pos, params);
        proof {
            Tree::lemma_lru_wf_preserved(*old(self), *self);
        }
    }

    /// Recomputes the priors of node `i` under the root temperature:
    /// see `Node::relabel_policy`.
    pub fn relabel_node<T: GameRep>(&mut self, i: i32, pos: &T, params: &MctsParams)
        requires
            old(self).wf(),
            old(self).idx_ok(i as int),
        ensures
            final(self).wf(),
            final(self).cap == old(self).cap,
            final(self).root == old(self).root,
            final(self).lru_head == old(self).lru_head,
            final(self).lru_tail == old(self).lru_tail,
            final(self).table@ == old(self).table@,
            final(self).root_edge == old(self).root_edge,
            final(self).nodes@.len() == old(self).nodes@.len(),
            forall|j: int|
                old(self).idx_ok(j) && j != i as int ==> final(self).nodes@[j]
                    == old(self).nodes@[j],
            final(self).nodes@[i as int].state == old(self).nodes@[i as int].state,
            final(self).nodes@[i as int].hash == old(self).nodes@[i as int].hash,
            final(self).nodes@[i as int].parent == old(self).nodes@[i as int].parent,
            final(self).nodes@[i as int].action == old(self).nodes@[i as int].action,
            final(self).nodes@[i as int].actions@.len() == old(self).nodes@[
                i as int].actions@.len(),
            forall|j: int|
                0 <= j < final(self).nodes@[i as int].actions@.len() ==> {
                    &&& (#[trigger] final(self).nodes@[i as int].actions@[j]).ptr
                        == old(self).nodes@[i as int].actions@[j].ptr
                    &&& final(self).nodes@[i as int].actions@[j].mov == old(self).nodes@[
                        i as int].actions@[j].mov
                    &&& final(self).nodes@[i as int].actions@[j].visits == old(self).nodes@[
                        i as int].actions@[j].visits
                    &&& final(self).nodes@[i as int].actions@[j].wins == old(self).nodes@[
                        i as int].actions@[j].wins
                },
    {
        let n = &mut self.nodes[i as usize];
        n.relabel_policy::<T>(pos, params);
        proof {
            Tree::lemma_lru_wf_preserved(*old(self), *self);
        }
    }

    /// Moves node `i` to the head of the LRU recency list in O(1).
    #[verifier::rlimit(100)]
    #[verifier::spinoff_prover]
    pub fn make_recently_used(&mut self, i: i32)
        requires
            old(self).wf(),
            old(self).idx_ok(i as int),
        ensures
            final(self).wf(),
            final(self).lru_head == i,
            final(self).cap == old(self).cap,
            final(self).root == old(self).root,
            final(self).table@ == old(self).table@,
            final(self).root_edge == old(self).root_edge,
            final(self).nodes@.len() == old(self).nodes@.len(),
            forall|j: int|
                old(self).idx_ok(j) ==> (#[trigger] final(self).nodes@[j]).key_fields()
                    == old(self).nodes@[j].key_fields(),
    {
        let iu = i as usize;
        let p = self.nodes[iu].lru_prev;
        let n = self.nodes[iu].lru_next;
        if p != -1 {
            self.nodes[p as usize].lru_next = n;
        } else if self.lru_head == i {
            self.lru_head = n;
        }
        if n != -1 {
            self.nodes[n as usize].lru_prev = p;
        } else if self.lru_tail == i {
            self.lru_tail = p;
        }
        self.nodes[iu].lru_prev = -1;
        let h = self.lru_head;
        self.nodes[iu].lru_next = h;
        if h != -1 && h != i {
            self.nodes[h as usize].lru_prev = i;
        }
        self.lru_head = i;
        if self.lru_tail == -1 && h == -1 {
            self.lru_tail = i;
        }
        proof {
            let pre = *old(self);
            assert(pre.lru_links_at(i as int));
            if p != -1 {
                assert(pre.lru_links_at(p as int));
            }
            if n != -1 {
                assert(pre.lru_links_at(n as int));
            }
            if h != -1 {
                assert(pre.lru_links_at(h as int));
            }
            assert forall|k: int| self.idx_ok(k) implies #[trigger] self.lru_links_at(k) by {
                assert(pre.lru_links_at(k));
                let nx = self.nodes@[k].lru_next as int;
                let pv = self.nodes@[k].lru_prev as int;
                if 0 <= nx < self.nodes@.len() {
                    assert(pre.lru_links_at(nx));
                }
                if 0 <= pv < self.nodes@.len() {
                    assert(pre.lru_links_at(pv));
                }
            };
        }
    }

    /// Inserts a fresh node, evicting the least-recently-used node when
    /// the arena is full. On eviction the evicted node's former parent
    /// edge has its child pointer reset to the sentinel, so a later
    /// visit rediscovers and reallocates that child; the evicted slot
    /// holds the new node. The new node becomes the LRU head. Returns
    /// the slot index of the inserted node.
    #[verifier::rlimit(100)]
    #[verifier::spinoff_prover]
    pub fn push(&mut self, node: Node) -> (r: i32)
        requires
            old(self).wf(),
            node.inv(),
            old(self).link_ok(node.parent as int),
            node.actions@.len() == 0,
        ensures
            final(self).wf(),
            final(self).cap == old(self).cap,
            final(self).root == old(self).root,
            final(self).table@ == old(self).table@,
            final(self).root_edge == old(self).root_edge,
            final(self).idx_ok(r as int),
            final(self).lru_head == r,
            old(self).nodes@.len() < old(self).cap ==> {
                &&& final(self).nodes@.len() == old(self).nodes@.len() + 1
                &&& r == old(self).nodes@.len()
            },
            old(self).nodes@.len() == old(self).cap ==> final(self).nodes@.len()
                == old(self).nodes@.len(),
            final(self).nodes@[r as int].state == node.state,
            final(self).nodes@[r as int].hash == node.hash,
            final(self).nodes@[r as int].parent == node.parent,
            final(self).nodes@[r as int].action == node.action,
            final(self).nodes@[r as int].actions@.len() == 0,
            old(self).nodes@.len() < old(self).cap ==> forall|i: int|
                old(self).idx_ok(i) ==> (#[trigger] final(self).nodes@[i]).key_fields()
                    == old(self).nodes@[i].key_fields(),
            old(self).nodes@.len() < old(self).cap ==> final(self).lru_tail == (
                if old(self).lru_tail == -1 && old(self).lru_head == -1 {
                    r
                } else {
                    old(self).lru_tail
                }),
            old(self).nodes@.len() == old(self).cap ==> ({
                let vi = r as int;
                let vp = old(self).nodes@[vi].parent as int;
                let va = old(self).nodes@[vi].action as int;
                let touched = vp != -1 && vp != vi && old(self).idx_ok(vp);
                &&& (0 <= old(self).lru_tail < old(self).nodes@.len() ==> r
                    == old(self).lru_tail)
                &&& (forall|i: int|
                    old(self).idx_ok(i) && i != vi && i != vp
                        ==> (#[trigger] final(self).nodes@[i]).key_fields()
                        == old(self).nodes@[i].key_fields())
                &&& (touched ==> final(self).nodes@[vp].state == old(self).nodes@[vp].state
                    && final(self).nodes@[vp].hash == old(self).nodes@[vp].hash
                    && final(self).nodes@[vp].parent == old(self).nodes@[vp].parent
                    && final(self).nodes@[vp].action == old(self).nodes@[vp].action)
                &&& ((touched && va < old(self).nodes@[vp].actions@.len())
                    ==> final(self).nodes@[vp].actions@ == old(self).nodes@[
                    vp].actions@.update(va, (Edge {
                    ptr: -1i32,
                    ..old(self).nodes@[vp].actions@[va]
                })))
                &&& ((touched && va >= old(self).nodes@[vp].actions@.len())
                    ==> final(self).nodes@[vp].actions@ == old(self).nodes@[vp].actions@)
            }),
    {
        let mut node = node;
        node.lru_prev = -1;
        node.lru_next = -1;
        let r: i32;
        if self.nodes.len() < self.cap {
            r = self.nodes.len() as i32;
            self.nodes.push(node);
            proof {
                assert forall|i: int|
                    0 <= i < old(self).nodes@.len() implies ((#[trigger] old(self).nodes@[
                    i]).lru_prev < old(self).nodes@.len() && old(self).nodes@[i].lru_next
                    < old(self).nodes@.len()) by {
                    assert(old(self).node_ok(old(self).nodes@[i]));
                };
                Tree::lemma_lru_wf_append(*old(self), *self);
                assert forall|i: int| self.idx_ok(i) implies #[trigger] self.no_link_to(i,
                    r as int) by {
                    if i < r as int {
                        assert(old(self).node_ok(old(self).nodes@[i]));
                    }
                };
            }
        } else {
            r = self.evict_and_replace(node);
        }
        self.attach_head(r);
        r
    }

    /// Detaches the LRU tail from the recency list, resets its former
    /// parent edge to the sentinel, and overwrites its slot with the
    /// given fresh node. Used only by `push` on a full arena.
    #[verifier::rlimit(100)]
    #[verifier::spinoff_prover]
    fn evict_and_replace(&mut self, node: Node) -> (v: i32)
        requires
            old(self).wf(),
            old(self).nodes@.len() > 0,
            node.inv(),
            old(self).link_ok(node.parent as int),
            node.actions@.len() == 0,
            node.lru_prev == -1,
            node.lru_next == -1,
        ensures
            final(self).wf(),
            final(self).cap == old(self).cap,
            final(self).root == old(self).root,
            final(self).table@ == old(self).table@,
            final(self).root_edge == old(self).root_edge,
            final(self).nodes@.len() == old(self).nodes@.len(),
            final(self).idx_ok(v as int),
            (0 <= old(self).lru_tail < old(self).nodes@.len() ==> v == old(self).lru_tail),
            final(self).nodes@[v as int].lru_prev == -1,
            final(self).nodes@[v as int].lru_next == -1,
            final(self).lru_head != v,
            final(self).lru_tail != v,
            forall|i: int|
                final(self).idx_ok(i) ==> #[trigger] final(self).no_link_to(i, v as int),
            final(self).nodes@[v as int].state == node.state,
            final(self).nodes@[v as int].hash == node.hash,
            final(self).nodes@[v as int].parent == node.parent,
            final(self).nodes@[v as int].action == node.action,
            final(self).nodes@[v as int].actions@.len() == 0,
            ({
                let vi = v as int;
                let vp = old(self).nodes@[vi].parent as int;
                let va = old(self).nodes@[vi].action as int;
                let touched = vp != -1 && vp != vi && old(self).idx_ok(vp);
                &&& (forall|i: int|
                    old(self).idx_ok(i) && i != vi && i != vp
                        ==> (#[trigger] final(self).nodes@[i]).key_fields()
                        == old(self).nodes@[i].key_fields())
                &&& (touched ==> final(self).nodes@[vp].state == old(self).nodes@[vp].state
                    && final(self).nodes@[vp].hash == old(self).nodes@[vp].hash
                    && final(self).nodes@[vp].parent == old(self).nodes@[vp].parent
                    && final(self).nodes@[vp].action == old(self).nodes@[vp].action)
                &&& ((touched && va < old(self).nodes@[vp].actions@.len())
                    ==> final(self).nodes@[vp].actions@ == old(self).nodes@[
                    vp].actions@.update(va, (Edge {
                    ptr: -1i32,
                    ..old(self).nodes@[vp].actions@[va]
                })))
                &&& ((touched && va >= old(self).nodes@[vp].actions@.len())
                    ==> final(self).nodes@[vp].actions@ == old(self).nodes@[vp].actions@)
            }),
    {
        let victim: i32 = if 0 <= self.lru_tail && (self.lru_tail as usize)
            < self.nodes.len() {
            self.lru_tail
        } else {
            0
        };
        let vu = victim as usize;
        // detach the victim from the recency list
        let p = self.nodes[vu].lru_prev;
        let n = self.nodes[vu].lru_next;
        if p != -1 {
            self.nodes[p as usize].lru_next = n;
        } else if self.lru_head == victim {
            self.lru_head = n;
        }
        if n != -1 {
            self.nodes[n as usize].lru_prev = p;
        } else if self.lru_tail == victim {
            self.lru_tail = p;
        }
        // reset the victim's former parent edge to the sentinel
        let vp = self.nodes[vu].parent;
        let va = self.nodes[vu].action;
        if vp != -1 && vp != victim {
            let vpu = vp as usize;
            if va < self.nodes[vpu].actions.len() {
                let mut e = self.nodes[vpu].actions[va];
                e.set_ptr(-1);
                self.nodes[vpu].actions[va] = e;
            }
        }
        self.nodes[vu] = node;
        proof {
            let pre = *old(self);
            assert(pre.lru_links_at(victim as int));
            if p != -1 {
                assert(pre.lru_links_at(p as int));
            }
            if n != -1 {
                assert(pre.lru_links_at(n as int));
            }
            assert forall|k: int| self.idx_ok(k) implies #[trigger] self.lru_links_at(k) by {
                assert(pre.lru_links_at(k));
                let nx = self.nodes@[k].lru_next as int;
                let pv = self.nodes@[k].lru_prev as int;
                if 0 <= nx < self.nodes@.len() {
                    assert(pre.lru_links_at(nx));
                }
                if 0 <= pv < self.nodes@.len() {
                    assert(pre.lru_links_at(pv));
                }
            };
            assert forall|k: int| self.idx_ok(k) implies #[trigger] self.no_link_to(k,
                victim as int) by {
                assert(pre.lru_links_at(k));
            };
        }
        victim
    }

    /// Links node `r` in as the head of the recency list; the node's
    /// previous links must already be cleared.
    #[verifier::rlimit(100)]
    #[verifier::spinoff_prover]
    fn attach_head(&mut self, r: i32)
        requires
            old(self).wf(),
            old(self).idx_ok(r as int),
            old(self).nodes@[r as int].lru_prev == -1,
            old(self).nodes@[r as int].lru_next == -1,
            old(self).lru_head != r,
            old(self).lru_tail != r,
            forall|i: int|
                old(self).idx_ok(i) ==> #[trigger] old(self).no_link_to(i, r as int),
        ensures
            final(self).wf(),
            final(self).lru_head == r,
            final(self).lru_tail == (if old(self).lru_tail == -1 && old(self).lru_head == -1 {
                r
            } else {
                old(self).lru_tail
            }),
            final(self).cap == old(self).cap,
            final(self).root == old(self).root,
            final(self).table@ == old(self).table@,
            final(self).root_edge == old(self).root_edge,
            final(self).nodes@.len() == old(self).nodes@.len(),
            forall|j: int|
                old(self).idx_ok(j) ==> (#[trigger] final(self).nodes@[j]).key_fields()
                    == old(self).nodes@[j].key_fields(),
    {
        let ru = r as usize;
        let h = self.lru_head;
        self.nodes[ru].lru_prev = -1;
        self.nodes[ru].lru_next = h;
        if h != -1 {
            self.nodes[h as usize].lru_prev = r;
        }
        self.lru_head = r;
        if self.lru_tail == -1 && h == -1 {
            self.lru_tail = r;
        }
        proof {
            let pre = *old(self);
            assert forall|k: int| self.idx_ok(k) implies #[trigger] self.lru_links_at(k) by {
                assert(pre.lru_links_at(k));
                assert(pre.lru_links_at(r as int));
                if h != -1 {
                    assert(pre.lru_links_at(h as int));
                }
                let nx = self.nodes@[k].lru_next as int;
                let pv = self.nodes@[k].lru_prev as int;
                if 0 <= nx < self.nodes@.len() {
                    assert(pre.lru_links_at(nx));
                }
                if 0 <= pv < self.nodes@.len() {
                    assert(pre.lru_links_at(pv));
                }
            };
        }
    }

    /// Looks the position hash up in the transposition side table;
    /// returns the stored visit and win statistics on a hit.
    pub fn probe_hash(&self, hash: u64) -> (r: Option<(u32, u64)>)
        requires
            self.wf(),
        ensures
            r == ({
                let e = self.table@[hash as int % self.table@.len() as int];
                if e.visits > 0 && e.hash == hash {
                    Some((e.visits, e.wins))
                } else {
                    None::<(u32, u64)>
                }
            }),
            match r {
                Some(s) => s.0 > 0 && s.1 as int <= s.0 as int * SCALE as int,
                None => true,
            },
    {
        let idx = (hash % (self.table.len() as u64)) as usize;
        let entry = self.table[idx];
        if entry.visits > 0 && entry.hash == hash {
            Some((entry.visits, entry.wins))
        } else {
            None
        }
    }

    /// Publishes backed-up statistics for a position hash into the side
    /// table, replacing whatever the slot held.
    pub fn push_hash(&mut self, hash: u64, visits: u32, wins: u64)
        requires
            old(self).wf(),
            wins as int <= visits as int * SCALE as int,
        ensures
            final(self).wf(),
            final(self).cap == old(self).cap,
            final(self).root == old(self).root,
            final(self).lru_head == old(self).lru_head,
            final(self).lru_tail == old(self).lru_tail,
            final(self).root_edge == old(self).root_edge,
            final(self).nodes@ == old(self).nodes@,
            final(self).table@ == old(self).table@.update(
                hash as int % old(self).table@.len() as int,
                (HashEntry { hash, visits, wins })),
    {
        let idx = (hash % (self.table.len() as u64)) as usize;
        self.table[idx] = HashEntry { hash, visits, wins };
        proof {
            Tree::lemma_lru_wf_preserved(*old(self), *self);
        }
    }

    /// Strict ordering of edges used to pick a best child: more visits
    /// first, then higher mean value, then higher prior.
    pub open spec fn better(a: Edge, b: Edge) -> bool {
        ||| a.visits > b.visits
        ||| (a.visits == b.visits && a.q_spec() > b.q_spec())
        ||| (a.visits == b.visits && a.q_spec() == b.q_spec() && a.policy > b.policy)
    }

    /// Index of the best edge among the first `n`: a later edge takes
    /// the place only when it is strictly better, so the first
    /// occurrence of the maximum wins.
    pub open spec fn best_idx(acts: Seq<Edge>, n: int) -> int
        decreases n,
    {
        if n <= 1 {
            0
        } else {
            let b = Tree::best_idx(acts, n - 1);
            if Tree::better(acts[n - 1], acts[b]) {
                n - 1
            } else {
                b
            }
        }
    }

    /// Index of the best edge of node `ptr`: the highest visit count,
    /// ties broken by higher mean value, then by higher prior, first
    /// occurrence winning. Returns the `usize::MAX` sentinel when the
    /// node has no edges.
    pub fn get_best_child(&self, ptr: i32) -> (r: usize)
        requires
            self.wf(),
            self.idx_ok(ptr as int),
        ensures
            self.nodes@[ptr as int].actions@.len() == 0 ==> r == usize::MAX,
            self.nodes@[ptr as int].actions@.len() > 0 ==> {
                &&& r < self.nodes@[ptr as int].actions@.len()
                &&& r == Tree::best_idx(self.nodes@[ptr as int].actions@,
                    self.nodes@[ptr as int].actions@.len() as int)
                &&& forall|i: int|
                    0 <= i < self.nodes@[ptr as int].actions@.len() ==> !Tree::better(
                        #[trigger] self.nodes@[ptr as int].actions@[i],
                        self.nodes@[ptr as int].actions@[r as int])
                &&& forall|i: int|
                    0 <= i < r ==> Tree::better(self.nodes@[ptr as int].actions@[r as int],
                        #[trigger] self.nodes@[ptr as int].actions@[i])
            },
    {
        let n = &self.nodes[ptr as usize];
        if n.actions.len() == 0 {
            return usize::MAX;
        }
        let mut best: usize = 0;
        let mut i: usize = 1;
        while i < n.actions.len()
            invariant
                self.wf(),
                self.idx_ok(ptr as int),
                n == self.nodes@[ptr as int],
                n.actions@.len() > 0,
                best < i <= n.actions@.len(),
                best == Tree::best_idx(n.actions@, i as int),
                forall|k: int|
                    0 <= k < i ==> !Tree::better(#[trigger] n.actions@[k],
                        n.actions@[best as int]),
                forall|k: int|
                    0 <= k < best ==> Tree::better(n.actions@[best as int],
                        #[trigger] n.actions@[k]),
            decreases n.actions@.len() - i,
        {
            let a = &n.actions[i];
            let b = &n.actions[best];
            let is_better: bool = if a.visits() > b.visits() {
                true
            } else if a.visits() == b.visits() {
                let qa = a.q();
                let qb = b.q();
                if qa > qb {
                    true
                } else {
                    qa == qb && a.policy() > b.policy()
                }
            } else {
                false
            };
            if is_better {
                best = i;
            }
            i = i + 1;
        }
        best
    }

    /// Locates a node with the given position hash among the current
    /// root's children and grandchildren — the positions reachable by
    /// one or two moves — if the previous search left a tree behind;
    /// on a find that node is detached from its former parent and
    /// promoted to root. Otherwise the arena is discarded and a fresh
    /// single-node root with this hash and state is created. Either
    /// way the promoted root carries the given hash.
    /// Arena index recorded by the root's `i`-th edge.
    pub open spec fn root_child_ptr(self, i: int) -> int {
        self.nodes@[self.root as int].actions@[i].ptr as int
    }

    /// The root's `j`-th grandchild through child edge `i` is
    /// materialized and records `hash`.
    pub open spec fn grandchild_match(self, i: int, j: int, hash: u64) -> bool {
        let c = self.root_child_ptr(i);
        &&& 0 <= j < self.nodes@[c].actions@.len()
        &&& self.nodes@[c].actions@[j].ptr != -1
        &&& self.nodes@[self.nodes@[c].actions@[j].ptr as int].hash == hash
    }

    /// The root's `i`-th child edge leads, in one or two moves, to a
    /// materialized node recording `hash`.
    pub open spec fn child_match(self, i: int, hash: u64) -> bool {
        let c = self.root_child_ptr(i);
        &&& 0 <= i < self.nodes@[self.root as int].actions@.len()
        &&& c != -1
        &&& (self.nodes@[c].hash == hash || exists|j: int| self.grandchild_match(i, j, hash))
    }

    /// Some child or grandchild of the root records `hash`.
    pub open spec fn subtree_match_exists(self, hash: u64) -> bool {
        exists|i: int| self.child_match(i, hash)
    }

    /// `f` is a node that a one- or two-move match resolves to: it
    /// carries `hash` and is a materialized child of the root, or a
    /// materialized grandchild.
    pub open spec fn is_match_node(self, f: int, hash: u64) -> bool {
        &&& self.idx_ok(f)
        &&& self.nodes@[f].hash == hash
        &&& ((exists|i: int|
            0 <= i < self.nodes@[self.root as int].actions@.len() && (
            #[trigger] self.root_child_ptr(i)) == f) || (exists|i: int, j: int|
            0 <= i < self.nodes@[self.root as int].actions@.len()
                && self.root_child_ptr(i) != -1 && 0 <= j < self.nodes@[self.root_child_ptr(
                i)].actions@.len() && (#[trigger] self.nodes@[self.root_child_ptr(
                i)].actions@[j]).ptr as int == f))
    }

    #[verifier::rlimit(100)]
    #[verifier::spinoff_prover]
    pub fn try_use_subtree_by_hash(&mut self, hash: u64, state: GameState, have_prev: bool)
        requires
            old(self).wf(),
        ensures
            final(self).wf(),
            final(self).cap == old(self).cap,
            final(self).nodes@.len() > 0,
            final(self).idx_ok(final(self).root as int),
            final(self).nodes@[final(self).root as int].hash == hash,
            final(self).nodes@[final(self).root as int].parent == -1,
            final(self).lru_head == final(self).root,
            (have_prev && old(self).nodes@.len() > 0 && 0 <= old(self).root
                < old(self).nodes@.len() && old(self).subtree_match_exists(hash)) ==> ({
                &&& final(self).nodes@.len() == old(self).nodes@.len()
                &&& exists|f: int|
                    #[trigger] old(self).is_match_node(f, hash) && final(self).root == f
                        && final(self).nodes@[f].actions@ == old(self).nodes@[f].actions@
                        && final(self).nodes@[f].state == old(self).nodes@[f].state
            }),
            (!have_prev || old(self).nodes@.len() == 0) ==> (final(self).root_edge.visits
                == 0 && final(self).root_edge.wins == 0),
    {
        let mut found: i32 = -1;
        if have_prev && self.nodes.len() > 0 && 0 <= self.root
            && (self.root as usize) < self.nodes.len() {
            let r = self.root as usize;
            let n_root = self.nodes[r].actions.len();
            let mut i: usize = 0;
            while i < n_root && found == -1
                invariant
                    self.wf(),
                    *self == *old(self),
                    self.nodes@.len() > 0,
                    r == self.root,
                    n_root == self.nodes@[r as int].actions@.len(),
                    i <= n_root,
                    found == -1 || (self.idx_ok(found as int)
                        && self.nodes@[found as int].hash == hash
                        && self.is_match_node(found as int, hash)),
                    found == -1 ==> forall|k: int|
                        0 <= k < i ==> !(#[trigger] self.child_match(k, hash)),
                decreases n_root - i,
            {
                let e = self.nodes[r].actions[i];
                if e.ptr() != -1 {
                    let c = e.ptr() as usize;
                    if self.nodes[c].hash == hash {
                        found = e.ptr();
                        proof {
                            assert(self.root_child_ptr(i as int) == found as int);
                            assert(self.is_match_node(found as int, hash));
                        }
                    } else {
                        let n_child = self.nodes[c].actions.len();
                        let mut j: usize = 0;
                        while j < n_child && found == -1
                            invariant
                                self.wf(),
                                *self == *old(self),
                                self.nodes@.len() > 0,
                                r == self.root,
                                i < self.nodes@[r as int].actions@.len(),
                                c == self.root_child_ptr(i as int),
                                0 <= c < self.nodes@.len(),
                                self.nodes@[c as int].hash != hash,
                                n_child == self.nodes@[c as int].actions@.len(),
                                j <= n_child,
                                found == -1 || (self.idx_ok(found as int)
                                    && self.nodes@[found as int].hash == hash
                                    && self.is_match_node(found as int, hash)),
                                found == -1 ==> forall|l: int|
                                    0 <= l < j ==> !(#[trigger] self.grandchild_match(
                                    i as int, l, hash)),
                            decreases n_child - j,
                        {
                            let g = self.nodes[c].actions[j].ptr();
                            if g != -1 {
                                if self.nodes[g as usize].hash == hash {
                                    found = g;
                                    proof {
                                        assert(self.root_child_ptr(i as int) == c as int);
                                        assert((self.nodes@[self.root_child_ptr(
                                            i as int)].actions@[j as int]).ptr as int
                                            == found as int);
                                        assert(self.is_match_node(found as int, hash));
                                    }
                                }
                            }
                            j = j + 1;
                        }
                        proof {
                            if found == -1 {
                                assert(forall|l: int|
                                    0 <= l < n_child ==> !(#[trigger] self.grandchild_match(
                                    i as int, l, hash)));
                                assert(!self.child_match(i as int, hash));
                            }
                        }
                    }
                } else {
                    proof {
                        assert(!self.child_match(i as int, hash));
                    }
                }
                i = i + 1;
            }
            proof {
                if found == -1 {
                    assert(forall|k: int|
                        0 <= k < n_root ==> !(#[trigger] self.child_match(k, hash)));
                    assert(!self.subtree_match_exists(hash));
                }
            }
        }
        if found != -1 {
            let f = found as usize;
            // detach the promoted node from its former parent edge
            let fp = self.nodes[f].parent;
            let fa = self.nodes[f].action;
            if fp != -1 && fp != found {
                let fpu = fp as usize;
                if fa < self.nodes[fpu].actions.len() {
                    let mut e = self.nodes[fpu].actions[fa];
                    e.set_ptr(-1);
                    self.nodes[fpu].actions[fa] = e;
                }
            }
            self.nodes[f].parent = -1;
            self.nodes[f].action = 0;
            self.root = found;
            proof {
                Tree::lemma_lru_wf_preserved(*old(self), *self);
            }
            self.make_recently_used(found);
        } else {
            // no reusable subtree: discard, clear the synthetic root
            // edge, and start from a fresh root
            self.nodes = Vec::new();
            self.lru_head = -1;
            self.lru_tail = -1;
            self.root = -1;
            self.root_edge = Edge::default();
            let idx = self.push(Node::new(state, hash, -1, 0));
            self.root = idx;
        }
    }

    /// Summed visit counts of the first `n` edges of `acts`.
    pub open spec fn visits_sum(acts: Seq<Edge>, n: int) -> int
        decreases n,
    {
        if n <= 0 {
            0
        } else {
            Tree::visits_sum(acts, n - 1) + acts[n - 1].visits
        }
    }

    /// Reuses the subtree matching the new root position if the previous
    /// search's tree allows it; otherwise starts a fresh root for it.
    pub fn try_use_subtree<T: GameRep>(&mut self, root_pos: &T, prev: &Option<T>)
        requires
            old(self).wf(),
        ensures
            final(self).wf(),
            final(self).cap == old(self).cap,
            final(self).nodes@.len() > 0,
            final(self).idx_ok(final(self).root as int),
            final(self).nodes@[final(self).root as int].parent == -1,
            final(self).lru_head == final(self).root,
            (prev is None) ==> (final(self).root_edge.visits == 0
                && final(self).root_edge.wins == 0),
    {
        let hash = root_pos.hash();
        let state = root_pos.game_state();
        let have_prev = prev.is_some();
        self.try_use_subtree_by_hash(hash, state, have_prev);
    }
}

/// Helper for the visit-accounting law: updating the edge at `j` raises
/// the sum over any prefix that contains it by one, and leaves the sum
/// over any other prefix unchanged.
proof fn lemma_visits_sum_update(acts: Seq<Edge>, j: int, result: u64, n: int)
    requires
        0 <= j < acts.len(),
        0 <= n <= acts.len(),
        acts[j].visits < u32::MAX,
    ensures
        Tree::visits_sum(acts.update(j, Tree::edge_after_update(acts[j], result)), n)
            == Tree::visits_sum(acts, n) + if j < n {
            1int
        } else {
            0int
        },
    decreases n,
{
    if n > 0 {
        lemma_visits_sum_update(acts, j, result, n - 1);
    }
}

/// Law (one step of the visit accounting): backing one result up into
/// one unsaturated edge of a node raises that node's summed visit count
/// by exactly one.
pub proof fn lemma_update_adds_one_visit(acts: Seq<Edge>, j: int, result: u64)
    requires
        0 <= j < acts.len(),
        acts[j].visits < u32::MAX,
    ensures
        Tree::visits_sum(acts.update(j, Tree::edge_after_update(acts[j], result)),
            acts.len() as int) == Tree::visits_sum(acts, acts.len() as int) + 1,
{
    lemma_visits_sum_update(acts, j, result, acts.len() as int);
}

} // verus!
