use vstd::prelude::*;
use crate::edge::Edge;
use crate::edge::SCALE;
use crate::game::GameRep;
use crate::params::MctsParams;

verus! {

/// A prior from the adapter, clamped into the unit range.
pub open spec fn clamped_prior(p: u64) -> int {
    if p > SCALE {
        SCALE as int
    } else {
        p as int
    }
}

/// Game-theoretic status of a reached position. `Lost(k)` and `Won(k)`
/// are proven outcomes, with `k` the shortest known mate distance in
/// plies from this node.
#[derive(Clone, Copy, Debug, PartialEq, Eq, Structural)]
pub enum GameState {
    Ongoing,
    Draw,
    Lost(u32),
    Won(u32),
}

/// A reached game state in the arena: its proven status, position
/// fingerprint, the edge that leads to it (parent node and action
/// index), one edge per legal move (empty until expansion), and links
/// into the LRU recency list.
#[derive(Debug)]
pub struct Node {
    pub state: GameState,
    pub hash: u64,
    pub parent: i32,
    pub action: usize,
    pub actions: Vec<Edge>,
    pub lru_prev: i32,
    pub lru_next: i32,
}

impl Node {
    /// Well-formedness: every edge satisfies the edge invariant.
    pub open spec fn inv(self) -> bool {
        forall|i: int| 0 <= i < self.actions@.len() ==> (#[trigger] self.actions@[i]).inv()
    }

    /// The node's identity and statistics, without the LRU links.
    pub open spec fn key_fields(self) -> (GameState, u64, i32, usize, Seq<Edge>) {
        (self.state, self.hash, self.parent, self.action, self.actions@)
    }

    /// A fresh, unexpanded node. A node is never expanded on creation:
    /// its first visit only evaluates a value, its second expands it.
    pub fn new(state: GameState, hash: u64, parent: i32, action: usize) -> (r: Self)
        ensures
            r.state == state,
            r.hash == hash,
            r.parent == parent,
            r.action == action,
            r.actions@.len() == 0,
            r.lru_prev == -1,
            r.lru_next == -1,
            r.inv(),
    {
        Node { state, hash, parent, action, actions: Vec::new(), lru_prev: -1, lru_next: -1 }
    }

    pub fn state(&self) -> (r: GameState)
        ensures
            r == self.state,
    {
        self.state
    }

    pub fn hash(&self) -> (r: u64)
        ensures
            r == self.hash,
    {
        self.hash
    }

    pub fn parent(&self) -> (r: i32)
        ensures
            r == self.parent,
    {
        self.parent
    }

    pub fn action(&self) -> (r: usize)
        ensures
            r == self.action,
    {
        self.action
    }

    pub fn actions(&self) -> (r: &Vec<Edge>)
        ensures
            r == self.actions,
    {
        &self.actions
    }

    pub fn has_children(&self) -> (r: bool)
        ensures
            r == (self.actions@.len() > 0),
    {
        self.actions.len() > 0
    }

    /// A node is terminal exactly when its state is not `Ongoing`.
    pub fn is_terminal(&self) -> (r: bool)
        ensures
            r == (self.state != GameState::Ongoing),
    {
        !(self.state == GameState::Ongoing)
    }

    /// Law: a node is not yet expanded exactly when it has no edges.
    pub fn is_not_expanded(&self) -> (r: bool)
        ensures
            r == (self.actions@.len() == 0),
    {
        self.actions.len() == 0
    }

    pub fn set_state(&mut self, state: GameState)
        ensures
            *final(self) == (Node { state, ..*old(self) }),
    {
        self.state = state;
    }

    /// Fills an unexpanded node from a plain move list: one fresh edge
    /// per item, the move code copied, the prior clamped to `[0, 1]`
    /// and quantized; no child and no statistics on any new edge.
    pub fn expand_from_list(&mut self, list: &Vec<(u16, u64)>)
        requires
            old(self).actions@.len() == 0,
        ensures
            final(self).inv(),
            final(self).state == old(self).state,
            final(self).hash == old(self).hash,
            final(self).parent == old(self).parent,
            final(self).action == old(self).action,
            final(self).lru_prev == old(self).lru_prev,
            final(self).lru_next == old(self).lru_next,
            final(self).actions@.len() == list@.len(),
            forall|i: int| 0 <= i < list@.len() ==> {
                &&& (#[trigger] final(self).actions@[i]).ptr == -1
                &&& final(self).actions@[i].mov == list@[i].0
                &&& final(self).actions@[i].policy as int == Edge::quantized(clamped_prior(
                    list@[i].1))
                &&& final(self).actions@[i].visits == 0
                &&& final(self).actions@[i].wins == 0
            },
    {
        let mut i: usize = 0;
        while i < list.len()
            invariant
                self.state == old(self).state,
                self.hash == old(self).hash,
                self.parent == old(self).parent,
                self.action == old(self).action,
                self.lru_prev == old(self).lru_prev,
                self.lru_next == old(self).lru_next,
                i <= list@.len(),
                self.actions@.len() == i,
                forall|j: int| 0 <= j < i ==> {
                    &&& (#[trigger] self.actions@[j]).inv()
                    &&& self.actions@[j].ptr == -1
                    &&& self.actions@[j].mov == list@[j].0
                    &&& self.actions@[j].policy as int == Edge::quantized(clamped_prior(
                        list@[j].1))
                    &&& self.actions@[j].visits == 0
                    &&& self.actions@[j].wins == 0
                },
            decreases list@.len() - i,
        {
            let (mov, p) = list[i];
            let p = if p > SCALE {
                SCALE
            } else {
                p
            };
            let mut e = Edge::new(-1, mov, 0);
            e.set_policy(p);
            self.actions.push(e);
            i = i + 1;
        }
    }

    /// Queries the position for its legal moves and their priors under
    /// the root temperature if `ROOT`, the ordinary one otherwise, and
    /// stores them through `expand_from_list`.
    pub fn expand<T: GameRep, const ROOT: bool>(&mut self, pos: &T, params: &MctsParams)
        requires
            old(self).actions@.len() == 0,
        ensures
            final(self).inv(),
            final(self).state == old(self).state,
            final(self).hash == old(self).hash,
            final(self).parent == old(self).parent,
            final(self).action == old(self).action,
            final(self).lru_prev == old(self).lru_prev,
            final(self).lru_next == old(self).lru_next,
            forall|i: int| 0 <= i < final(self).actions@.len() ==> {
                &&& (#[trigger] final(self).actions@[i]).ptr == -1
                &&& final(self).actions@[i].visits == 0
                &&& final(self).actions@[i].wins == 0
            },
    {
        let pst = if ROOT {
            params.root_pst()
        } else {
            params.pst()
        };
        let list = pos.policy_moves(pst);
        self.expand_from_list(&list);
    }

    /// Restores the priors of an already-expanded node from a plain
    /// move list, leaving every edge's child pointer and statistics
    /// untouched: when the list has one item per edge, each stored
    /// prior becomes the clamped, quantized list prior; a list of any
    /// other length changes nothing.
    pub fn relabel_from_list(&mut self, list: &Vec<(u16, u64)>)
        requires
            old(self).inv(),
        ensures
            final(self).inv(),
            final(self).state == old(self).state,
            final(self).hash == old(self).hash,
            final(self).parent == old(self).parent,
            final(self).action == old(self).action,
            final(self).lru_prev == old(self).lru_prev,
            final(self).lru_next == old(self).lru_next,
            final(self).actions@.len() == old(self).actions@.len(),
            list@.len() != old(self).actions@.len() ==> final(self).actions@
                == old(self).actions@,
            list@.len() == old(self).actions@.len() ==> forall|i: int|
                0 <= i < final(self).actions@.len() ==> (#[trigger] final(self).actions@[i])
                    .policy as int == Edge::quantized(clamped_prior(list@[i].1)),
            forall|i: int| 0 <= i < final(self).actions@.len() ==> {
                &&& (#[trigger] final(self).actions@[i]).ptr == old(self).actions@[i].ptr
                &&& final(self).actions@[i].mov == old(self).actions@[i].mov
                &&& final(self).actions@[i].visits == old(self).actions@[i].visits
                &&& final(self).actions@[i].wins == old(self).actions@[i].wins
            },
    {
        if list.len() == self.actions.len() {
            let mut i: usize = 0;
            while i < list.len()
                invariant
                    list@.len() == self.actions@.len(),
                    i <= list@.len(),
                    self.state == old(self).state,
                    self.hash == old(self).hash,
                    self.parent == old(self).parent,
                    self.action == old(self).action,
                    self.lru_prev == old(self).lru_prev,
                    self.lru_next == old(self).lru_next,
                    forall|j: int| 0 <= j < self.actions@.len() ==> {
                        &&& (#[trigger] self.actions@[j]).inv()
                        &&& self.actions@[j].ptr == old(self).actions@[j].ptr
                        &&& self.actions@[j].mov == old(self).actions@[j].mov
                        &&& self.actions@[j].visits == old(self).actions@[j].visits
                        &&& self.actions@[j].wins == old(self).actions@[j].wins
                    },
                    forall|j: int| 0 <= j < i ==> (#[trigger] self.actions@[j]).policy as int
                        == Edge::quantized(clamped_prior(list@[j].1)),
                decreases list@.len() - i,
            {
                let (_, p) = list[i];
                let p = if p > SCALE {
                    SCALE
                } else {
                    p
                };
                let e = &mut self.actions[i];
                e.set_policy(p);
                i = i + 1;
            }
        }
    }

    /// Recomputes the priors of an already-expanded node under the root
    /// softmax temperature through `relabel_from_list`, leaving every
    /// edge's child pointer and statistics untouched. Used when a
    /// reused subtree is promoted to root.
    pub fn relabel_policy<T: GameRep>(&mut self, pos: &T, params: &MctsParams)
        requires
            old(self).inv(),
        ensures
            final(self).inv(),
            final(self).state == old(self).state,
            final(self).hash == old(self).hash,
            final(self).parent == old(self).parent,
            final(self).action == old(self).action,
            final(self).lru_prev == old(self).lru_prev,
            final(self).lru_next == old(self).lru_next,
            final(self).actions@.len() == old(self).actions@.len(),
            forall|i: int| 0 <= i < final(self).actions@.len() ==> {
                &&& (#[trigger] final(self).actions@[i]).ptr == old(self).actions@[i].ptr
                &&& final(self).actions@[i].mov == old(self).actions@[i].mov
                &&& final(self).actions@[i].visits == old(self).actions@[i].visits
                &&& final(self).actions@[i].wins == old(self).actions@[i].wins
            },
    {
        let list = pos.policy_moves(params.root_pst());
        self.relabel_from_list(&list);
    }
}

} // verus!
