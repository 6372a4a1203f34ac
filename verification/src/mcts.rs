use vstd::prelude::*;
use crate::edge::Edge;
use crate::edge::SCALE;
use crate::edge::HALF_SCALE;
use crate::edge::POLICY_ONE;
use crate::game::GameRep;
use crate::game::Score;
use crate::game::SearchInfo;
use crate::node::GameState;
use crate::node::Node;
use crate::params::MctsParams;
use crate::params::CPUCT_MAX;
use crate::tree::HashEntry;
use crate::tree::Tree;

verus! {

/// Termination limits of one search call: optional wall-clock budget in
/// milliseconds, a cap on the reported average selection depth, and a
/// cap on the number of counted iterations.
#[derive(Clone, Copy, Debug)]
pub struct Limits {
    pub max_time: Option<u128>,
    pub max_depth: usize,
    pub max_nodes: usize,
}

/// Declares std::time::Instant, the opaque wall-clock reading the
/// searcher keeps for its sampled time checks.
#[verifier::external_type_specification]
#[verifier::external_body]
pub struct ExInstant(std::time::Instant);

/// Relies on std::time::Instant::now: an opaque starting point for
/// elapsed-time measurement. Nothing is assumed of the clock.
#[verifier::external_body]
fn clock_start() -> (r: std::time::Instant) {
    std::time::Instant::now()
}

/// Relies on std::time::Instant::elapsed: milliseconds since the given
/// starting point. Nothing is assumed of the clock.
#[verifier::external_body]
fn clock_elapsed_millis(start: &std::time::Instant) -> (r: u128) {
    start.elapsed().as_millis()
}

/// Integer square root, defined by counting up from zero.
pub open spec fn isqrt_spec(n: nat) -> nat
    decreases n,
{
    if n == 0 {
        0
    } else {
        let p = isqrt_spec((n - 1) as nat);
        if (p + 1) * (p + 1) <= n {
            p + 1
        } else {
            p
        }
    }
}

/// The integer square root is the greatest number whose square does not
/// exceed the argument.
pub proof fn lemma_isqrt_bounds(n: nat)
    ensures
        isqrt_spec(n) * isqrt_spec(n) <= n,
        n < (isqrt_spec(n) + 1) * (isqrt_spec(n) + 1),
    decreases n,
{
    if n > 0 {
        lemma_isqrt_bounds((n - 1) as nat);
        let p = isqrt_spec((n - 1) as nat);
        assert(p * p <= n - 1);
        assert(((n - 1) as nat) < (p + 1) * (p + 1));
        assert(isqrt_spec(n) == if (p + 1) * (p + 1) <= n {
            p + 1
        } else {
            p
        });
        if (p + 1) * (p + 1) <= n {
            assert(isqrt_spec(n) == p + 1);
            assert(n == (p + 1) * (p + 1));
            assert((p + 1) * (p + 1) < (p + 1 + 1) * (p + 1 + 1)) by (nonlinear_arith);
            assert(isqrt_spec(n) * isqrt_spec(n) <= n);
            assert(n < (isqrt_spec(n) + 1) * (isqrt_spec(n) + 1));
        } else {
            assert(isqrt_spec(n) == p);
            assert(p * p <= n);
            assert(isqrt_spec(n) * isqrt_spec(n) == p * p) by (nonlinear_arith)
                requires isqrt_spec(n) == p;
            assert(isqrt_spec(n) * isqrt_spec(n) <= n);
            assert((isqrt_spec(n) + 1) * (isqrt_spec(n) + 1) == (p + 1) * (p + 1))
                by (nonlinear_arith)
                requires isqrt_spec(n) == p;
            assert(n < (isqrt_spec(n) + 1) * (isqrt_spec(n) + 1));
        }
    } else {
        assert(isqrt_spec(0nat) == 0);
        assert(isqrt_spec(n) * isqrt_spec(n) == 0) by (nonlinear_arith)
            requires isqrt_spec(n) == 0;
        assert(isqrt_spec(n) * isqrt_spec(n) <= n);
        assert((isqrt_spec(n) + 1) * (isqrt_spec(n) + 1) == 1) by (nonlinear_arith)
            requires isqrt_spec(n) == 0;
        assert(n < (isqrt_spec(n) + 1) * (isqrt_spec(n) + 1));
    }
}

/// Any number between consecutive squares pins the square root down.
pub proof fn lemma_isqrt_unique(n: nat, r: nat)
    requires
        r * r <= n,
        n < (r + 1) * (r + 1),
    ensures
        r == isqrt_spec(n),
{
    let s = isqrt_spec(n);
    lemma_isqrt_bounds(n);
    if r < s {
        assert((r + 1) * (r + 1) <= s * s) by (nonlinear_arith)
            requires r + 1 <= s;
    }
    if s < r {
        assert((s + 1) * (s + 1) <= r * r) by (nonlinear_arith)
            requires s + 1 <= r;
    }
}

/// Binary-search integer square root for arguments up to `u32::MAX`.
fn isqrt(n: u64) -> (r: u64)
    requires
        n <= u32::MAX,
    ensures
        r as nat == isqrt_spec(n as nat),
        r <= 65536,
        r * r <= n,
        n < (r + 1) * (r + 1),
{
    let mut lo: u64 = 0;
    let mut hi: u64 = 65536;
    assert(65536u64 * 65536u64 > u32::MAX as u64) by (nonlinear_arith);
    while lo + 1 < hi
        invariant
            lo < hi <= 65536,
            n <= u32::MAX,
            lo * lo <= n,
            n < hi * hi,
        decreases hi - lo,
    {
        let mid = (lo + hi) / 2;
        assert(lo < mid < hi);
        assert(mid * mid <= 65536 * 65536) by (nonlinear_arith)
            requires mid <= 65536;
        if mid * mid <= n {
            lo = mid;
        } else {
            hi = mid;
        }
    }
    proof {
        lemma_isqrt_unique(n as nat, lo as nat);
    }
    lo
}

/// PUCT selection score of a child edge in `SCALE` units: the mean
/// value — or the first-play urgency `fpu` for an unvisited child —
/// plus the prior-weighted exploration term built from `expl`.
pub open spec fn puct_spec(c: Edge, fpu: int, expl: int) -> int {
    if c.visits == 0 {
        fpu + expl * (c.policy as int) / (POLICY_ONE as int)
    } else {
        c.q_spec() + expl * (c.policy as int) / ((POLICY_ONE as int) * (1 + c.visits as int))
    }
}

/// First-play urgency at node `ptr`: the loss probability of the edge
/// leading into the node, an optimistic prior for unexplored children.
pub open spec fn select_fpu(t: Tree, ptr: i32) -> int {
    SCALE as int - t.parent_edge_spec(ptr).q_spec()
}

/// Exploration factor at node `ptr`: the exploration constant (the root
/// one at the root) times the square root of the parent edge's visit
/// count, taken as at least one.
pub open spec fn select_expl(t: Tree, p: MctsParams, ptr: i32) -> int {
    let cp: int = if ptr == t.root {
        p.root_cpuct as int
    } else {
        p.cpuct as int
    };
    let n: nat = if t.parent_edge_spec(ptr).visits == 0 {
        1
    } else {
        t.parent_edge_spec(ptr).visits as nat
    };
    cp * isqrt_spec(n)
}

/// The mate distance carried by a proven-win state (0 otherwise).
pub open spec fn won_ply(s: GameState) -> u32 {
    match s {
        GameState::Won(n) => n,
        _ => 0,
    }
}

/// The longest proven-win distance among the children materialized
/// behind the first `n` edges of `acts`.
pub open spec fn max_won_ply(t: Tree, acts: Seq<Edge>, n: int) -> u32
    decreases n,
{
    if n <= 0 {
        0
    } else {
        let prev = max_won_ply(t, acts, n - 1);
        let cur = won_ply(t.nodes@[acts[n - 1].ptr as int].state);
        if cur > prev {
            cur
        } else {
            prev
        }
    }
}

/// Law: a node that selection proves `Lost(k)` has a materialized
/// child in state `Won(k - 1)`: among children that are all proven
/// won, the longest win distance — which the proof step turns into
/// `k - 1` — is attained by some child.
pub proof fn lemma_lost_node_has_winning_child(t: Tree, acts: Seq<Edge>, n: int)
    requires
        0 < n <= acts.len(),
        forall|i: int|
            0 <= i < n ==> (t.nodes@[(#[trigger] acts[i]).ptr as int].state is Won),
    ensures
        exists|i: int|
            0 <= i < n && t.nodes@[(#[trigger] acts[i]).ptr as int].state == GameState::Won(
                max_won_ply(t, acts, n)),
    decreases n,
{
    let prev = max_won_ply(t, acts, n - 1);
    let cur = won_ply(t.nodes@[acts[n - 1].ptr as int].state);
    if cur >= prev {
        assert(t.nodes@[acts[n - 1].ptr as int].state == GameState::Won(cur));
        assert(max_won_ply(t, acts, n) == cur);
    } else {
        lemma_lost_node_has_winning_child(t, acts, n - 1);
        assert(max_won_ply(t, acts, n) == prev);
    }
}

/// The root's first visit can be warm-started from the transposition
/// table: the root is ongoing and detached, its synthetic edge
/// unvisited, and the table slot for the root's hash holds that hash.
pub open spec fn warm_start_hit(t: Tree) -> bool {
    let rt = t.root as int;
    let rhash = t.nodes@[rt].hash;
    let entry = t.table@[rhash as int % t.table@.len() as int];
    &&& t.nodes@[rt].state == GameState::Ongoing
    &&& t.nodes@[rt].parent == -1
    &&& t.root_edge.visits == 0
    &&& entry.visits > 0
    &&& entry.hash == rhash
}

/// The stored mean value the warm start draws: the entry's wins over
/// its visits, in `SCALE` units.
pub open spec fn warm_start_value(t: Tree) -> int {
    let rt = t.root as int;
    let rhash = t.nodes@[rt].hash;
    let entry = t.table@[rhash as int % t.table@.len() as int];
    entry.wins as int / entry.visits as int
}

/// The greedy best-child move walk from edge `e`: while a proven mate
/// keeps it open or `d` moves remain, and the edge has a materialized
/// child, the edge's move followed by the walk from the child node's
/// best edge; `fuel` bounds the walk by the arena size.
pub open spec fn pv_spec(t: Tree, e: Edge, d: int, mate: bool, fuel: nat) -> Seq<u16>
    decreases fuel,
{
    if fuel == 0 || !(mate || d > 0) || e.ptr == -1 {
        Seq::empty()
    } else {
        let acts = t.nodes@[e.ptr as int].actions@;
        if acts.len() == 0 {
            seq![e.mov]
        } else {
            let ne = acts[Tree::best_idx(acts, acts.len() as int)];
            seq![e.mov] + pv_spec(t, ne, if d > 0 {
                d - 1
            } else {
                d
            }, mate, (fuel - 1) as nat)
        }
    }
}

/// Exact exploration score of one edge, in `SCALE` units.
fn puct_score(c: &Edge, fpu: u64, expl: u64) -> (r: u64)
    requires
        c.inv(),
        fpu <= SCALE,
        expl <= 0x4000_0000_0000,
    ensures
        r == puct_spec(*c, fpu as int, expl as int),
{
    assert(expl * (c.policy as int) <= 0x4000_0000_0000 * 0x8000) by (nonlinear_arith)
        requires expl <= 0x4000_0000_0000, c.policy as int <= 0x8000;
    if c.visits() == 0 {
        let num = expl * (c.policy() as u64);
        fpu + num / POLICY_ONE
    } else {
        let num = expl * (c.policy() as u64);
        let den = POLICY_ONE * (1 + c.visits() as u64);
        let q = c.q();
        assert(num / den <= num) by {
            vstd::arithmetic::div_mod::lemma_div_nonincreasing(num as int, den as int);
        }
        q + num / den
    }
}

/// The search engine: a root position, the tree store reused across
/// decisions, and the read-only parameter bundle. The game adapter is
/// supplied through the `GameRep` implementation of `T`.
pub struct Searcher<T: GameRep> {
    pub root_position: T,
    pub tree: Tree,
    pub params: MctsParams,
}

impl<T: GameRep> Searcher<T> {
    /// Well-formedness: the tree store and the parameters are valid.
    pub open spec fn wf(self) -> bool {
        &&& self.tree.wf()
        &&& self.params.inv()
    }

    pub fn new(root_position: T, tree: Tree, params: MctsParams) -> (r: Self)
        requires
            tree.wf(),
            params.inv(),
        ensures
            r.wf(),
            r.root_position == root_position,
            r.tree == tree,
            r.params == params,
    {
        Searcher { root_position, tree, params }
    }

    /// Hands the tree and the root position back to the caller.
    pub fn tree_and_board(self) -> (r: (Tree, T))
        ensures
            r.0 == self.tree,
            r.1 == self.root_position,
    {
        (self.tree, self.root_position)
    }

    /// Value of node `ptr` from the side to move: the (clamped) value
    /// network's output for an ongoing position, one half for a draw,
    /// zero for a proven loss and one for a proven win — in `SCALE`
    /// units.
    fn get_utility(&self, ptr: i32, pos: &T) -> (r: u64)
        requires
            self.wf(),
            self.tree.idx_ok(ptr as int),
        ensures
            r <= SCALE,
            self.tree.nodes@[ptr as int].state == GameState::Draw ==> r == HALF_SCALE,
            (self.tree.nodes@[ptr as int].state is Lost) ==> r == 0,
            (self.tree.nodes@[ptr as int].state is Won) ==> r == SCALE,
    {
        match self.tree.node(ptr).state() {
            GameState::Ongoing => {
                let v = pos.get_value_wdl();
                if v > SCALE {
                    SCALE
                } else {
                    v
                }
            },
            GameState::Draw => HALF_SCALE,
            GameState::Lost(_) => 0,
            GameState::Won(_) => SCALE,
        }
    }

    /// PUCT selection among the children of node `ptr`, which must have
    /// been expanded. Returns the index of the first edge with the
    /// highest selection score. When every child edge has been visited,
    /// is materialized and leads to a proven win for the opponent of
    /// the mover at `ptr`, the node itself is a proven loss: its state
    /// is set to `Lost(k+1)` where `k` is the longest such win, and the
    /// `usize::MAX` sentinel is returned.
    #[verifier::rlimit(100)]
    pub fn pick_action(&mut self, ptr: i32) -> (r: usize)
        requires
            old(self).wf(),
            old(self).tree.idx_ok(ptr as int),
            old(self).tree.nodes@[ptr as int].actions@.len() > 0,
        ensures
            final(self).wf(),
            final(self).root_position == old(self).root_position,
            final(self).params == old(self).params,
            final(self).tree.cap == old(self).tree.cap,
            final(self).tree.root == old(self).tree.root,
            final(self).tree.lru_head == old(self).tree.lru_head,
            final(self).tree.lru_tail == old(self).tree.lru_tail,
            final(self).tree.table@ == old(self).tree.table@,
            final(self).tree.root_edge == old(self).tree.root_edge,
            final(self).tree.nodes@.len() == old(self).tree.nodes@.len(),
            forall|i: int|
                old(self).tree.idx_ok(i) && i != ptr as int ==> final(self).tree.nodes@[i]
                    == old(self).tree.nodes@[i],
            r != usize::MAX ==> ({
                let acts = old(self).tree.nodes@[ptr as int].actions@;
                let fpu = select_fpu(old(self).tree, ptr);
                let expl = select_expl(old(self).tree, old(self).params, ptr);
                &&& final(self).tree.nodes@ == old(self).tree.nodes@
                &&& r < acts.len()
                &&& forall|i: int|
                    0 <= i < acts.len() ==> puct_spec(#[trigger] acts[i], fpu, expl)
                        <= puct_spec(acts[r as int], fpu, expl)
                &&& forall|i: int|
                    0 <= i < r ==> puct_spec(#[trigger] acts[i], fpu, expl) < puct_spec(
                        acts[r as int], fpu, expl)
            }),
            ({
                let acts = old(self).tree.nodes@[ptr as int].actions@;
                let t = old(self).tree;
                forall|i: int|
                    0 <= i < acts.len() ==> ((#[trigger] acts[i]).visits > 0 && acts[i].ptr
                        != -1 && (t.nodes@[acts[i].ptr as int].state is Won))
            }) ==> r == usize::MAX,
            r == usize::MAX ==> ({
                let acts = old(self).tree.nodes@[ptr as int].actions@;
                let t = old(self).tree;
                &&& forall|i: int|
                    0 <= i < acts.len() ==> ((#[trigger] acts[i]).visits > 0 && acts[i].ptr
                        != -1 && (t.nodes@[acts[i].ptr as int].state is Won))
                &&& ({
                    let wl = max_won_ply(t, acts, acts.len() as int);
                    &&& final(self).tree.nodes@[ptr as int] == (Node {
                        state: GameState::Lost(if wl < u32::MAX {
                            (wl + 1) as u32
                        } else {
                            wl
                        }),
                        ..old(self).tree.nodes@[ptr as int]
                    })
                    &&& (exists|i: int|
                        0 <= i < acts.len() && t.nodes@[(#[trigger] acts[i]).ptr as int].state
                            == GameState::Won(wl))
                    &&& forall|i: int|
                        0 <= i < acts.len() ==> won_ply(
                            t.nodes@[(#[trigger] acts[i]).ptr as int].state) <= wl
                })
            }),
    {
        let is_root = ptr == self.tree.root_node();
        let cpuct = if is_root {
            self.params.root_cpuct()
        } else {
            self.params.cpuct()
        };
        let pe = self.tree.parent_edge(ptr);
        let pvisits = pe.visits();
        let n0: u64 = if pvisits == 0 {
            1
        } else {
            pvisits as u64
        };
        let sq = isqrt(n0);
        assert(cpuct * sq <= CPUCT_MAX * 65536) by (nonlinear_arith)
            requires cpuct <= CPUCT_MAX, sq <= 65536;
        let expl = cpuct * sq;
        let fpu = SCALE - pe.q();

        let len = self.tree.node(ptr).actions().len();
        let mut proven_loss = true;
        let mut win_len: u32 = 0;
        let mut best: usize = 0;
        let mut max_score: u64 = 0;
        let mut i: usize = 0;
        let ghost acts = self.tree.nodes@[ptr as int].actions@;
        let ghost gfpu = select_fpu(self.tree, ptr);
        let ghost gexpl = select_expl(self.tree, self.params, ptr);
        assert(gexpl == expl as int);
        assert(gfpu == fpu as int);
        while i < len
            invariant
                self.wf(),
                self.tree.idx_ok(ptr as int),
                acts == self.tree.nodes@[ptr as int].actions@,
                len == acts.len(),
                len > 0,
                i <= len,
                fpu <= SCALE,
                expl <= 0x4000_0000_0000,
                gfpu == fpu as int,
                gexpl == expl as int,
                i > 0 ==> best < i,
                i > 0 ==> max_score == puct_spec(acts[best as int], gfpu, gexpl),
                i > 0 ==> forall|k: int|
                    0 <= k < i ==> puct_spec(#[trigger] acts[k], gfpu, gexpl) <= puct_spec(
                        acts[best as int], gfpu, gexpl),
                i > 0 ==> forall|k: int|
                    0 <= k < best ==> puct_spec(#[trigger] acts[k], gfpu, gexpl) < puct_spec(
                        acts[best as int], gfpu, gexpl),
                proven_loss ==> forall|k: int|
                    0 <= k < i ==> ((#[trigger] acts[k]).visits > 0 && acts[k].ptr != -1
                        && (self.tree.nodes@[acts[k].ptr as int].state is Won)),
                proven_loss ==> forall|k: int|
                    0 <= k < i ==> won_ply(
                        self.tree.nodes@[(#[trigger] acts[k]).ptr as int].state) <= win_len,
                (proven_loss && i > 0) ==> exists|k: int|
                    0 <= k < i && self.tree.nodes@[(#[trigger] acts[k]).ptr as int].state
                        == GameState::Won(win_len),
                proven_loss ==> win_len == max_won_ply(self.tree, acts, i as int),
                !proven_loss ==> exists|k: int|
                    0 <= k < i && !((#[trigger] acts[k]).visits > 0 && acts[k].ptr != -1
                        && (self.tree.nodes@[acts[k].ptr as int].state is Won)),
            decreases len - i,
        {
            let c = self.tree.edge(ptr, i);
            let s: u64;
            if c.visits() == 0 {
                proven_loss = false;
                s = puct_score(&c, fpu, expl);
            } else {
                if c.ptr() != -1 {
                    let cs = self.tree.node(c.ptr()).state();
                    match cs {
                        GameState::Won(n) => {
                            if n > win_len {
                                win_len = n;
                            }
                        },
                        _ => {
                            proven_loss = false;
                        },
                    }
                } else {
                    proven_loss = false;
                }
                s = puct_score(&c, fpu, expl);
            }
            if i == 0 || s > max_score {
                best = i;
                max_score = s;
            }
            i = i + 1;
        }

        if proven_loss {
            let wl1: u32 = if win_len < u32::MAX {
                win_len + 1
            } else {
                win_len
            };
            self.tree.set_node_state(ptr, GameState::Lost(wl1));
            return usize::MAX;
        }
        best
    }

    /// One iteration of the protocol, starting at the root: descend by
    /// PUCT selection — marking every touched node most recently used,
    /// expanding a node on its second visit, materializing a missing
    /// child — until a terminal or first-visit node is reached; obtain
    /// a leaf value from the transposition table or the evaluator; then
    /// walk the path back up, inverting the value at each level,
    /// updating each node's incoming edge, publishing the new
    /// statistics to the transposition table, and promoting a child's
    /// proven loss to a proven win of the parent. Afterwards the root
    /// is at the head of the LRU list. The length of the walked path is
    /// added to `depth`, one count per level, as a recursive descent
    /// would; the caller keeps `depth` small enough to add; the returned
    /// value is the leaf value from the perspective of the side to move
    /// at the root's parent: for a terminal root it is the proven value
    /// inverted once, and when the root is detached (its parent the
    /// sentinel, as the search keeps it) the synthetic root edge's last
    /// change is exactly one more visit carrying that value, with the
    /// new statistics published to the root hash's transposition slot.
    pub fn perform_one_iteration(&mut self, pos: &mut T, depth: &mut usize) -> (u: u64)
        requires
            old(self).wf(),
            old(self).tree.nodes@.len() > 0,
            old(self).tree.idx_ok(old(self).tree.root as int),
            *old(depth) <= usize::MAX - old(self).tree.cap - 1,
        ensures
            final(self).wf(),
            final(self).tree.nodes@.len() > 0,
            final(self).tree.root == old(self).tree.root,
            final(self).tree.cap == old(self).tree.cap,
            final(self).tree.idx_ok(final(self).tree.root as int),
            final(self).tree.lru_head == old(self).tree.root,
            final(self).params == old(self).params,
            final(self).root_position == old(self).root_position,
            *old(depth) + 1 <= *final(depth) <= *old(depth) + old(self).tree.cap + 1,
            final(self).tree.root_edge.visits >= old(self).tree.root_edge.visits,
            u <= SCALE,
            old(self).tree.nodes@[old(self).tree.root as int].state == GameState::Draw
                ==> u == HALF_SCALE,
            (old(self).tree.nodes@[old(self).tree.root as int].state is Won) ==> u == 0,
            (old(self).tree.nodes@[old(self).tree.root as int].state is Lost) ==> u == SCALE,
            warm_start_hit(old(self).tree) ==> u as int == warm_start_value(old(self).tree),
            (old(self).tree.nodes@[old(self).tree.root as int].state != GameState::Ongoing)
                ==> final(self).tree.nodes@.len() == old(self).tree.nodes@.len(),
            ((old(self).tree.nodes@[old(self).tree.root as int].state != GameState::Ongoing)
                && old(self).tree.nodes@[old(self).tree.root as int].parent == -1)
                ==> forall|i: int|
                old(self).tree.idx_ok(i) ==> (#[trigger] final(self).tree.nodes@[
                    i]).key_fields() == old(self).tree.nodes@[i].key_fields(),
            old(self).tree.nodes@[old(self).tree.root as int].parent == -1 ==> ({
                let oe = old(self).tree.root_edge;
                let re = final(self).tree.root_edge;
                let rhash = old(self).tree.nodes@[old(self).tree.root as int].hash;
                &&& re.visits >= oe.visits
                &&& (oe.visits < u32::MAX ==> re.visits > oe.visits)
                &&& (exists|prev: Edge| prev.visits >= oe.visits && prev.wins >= oe.wins
                    && re == #[trigger] Tree::edge_after_update(prev, u))
                &&& final(self).tree.table@.len() == old(self).tree.table@.len()
                &&& final(self).tree.table@[rhash as int % old(self).tree.table@.len() as int]
                    == (HashEntry { hash: rhash, visits: re.visits, wins: re.wins })
            }),
    {
        let root = self.tree.root_node();
        let mut path: Vec<Frame> = Vec::new();
        let mut cur: i32 = root;
        let mut u: u64 = 0;
        loop
            invariant_except_break
                self.wf(),
                self.tree.nodes@.len() > 0,
                self.tree.root == old(self).tree.root,
                self.tree.cap == old(self).tree.cap,
                self.params == old(self).params,
                self.root_position == old(self).root_position,
                root == self.tree.root,
                self.tree.idx_ok(cur as int),
                self.tree.root_edge == old(self).tree.root_edge,
                self.tree.table@ == old(self).tree.table@,
                path@.len() <= self.tree.cap,
                forall|k: int|
                    0 <= k < path@.len() ==> self.tree.idx_ok((#[trigger] path@[k]).idx as int),
                path@.len() == 0 ==> cur == root && self.tree.nodes@ == old(self).tree.nodes@,
                path@.len() > 0 ==> path@[0].idx == root && path@[0].parent
                    == old(self).tree.nodes@[root as int].parent && path@[0].hash
                    == old(self).tree.nodes@[root as int].hash,
                (old(self).tree.nodes@[root as int].state != GameState::Ongoing)
                    ==> path@.len() == 0,
                warm_start_hit(old(self).tree) ==> path@.len() == 0,
            ensures
                self.wf(),
                self.tree.nodes@.len() > 0,
                self.tree.root == old(self).tree.root,
                self.tree.cap == old(self).tree.cap,
                self.params == old(self).params,
                self.root_position == old(self).root_position,
                root == self.tree.root,
                self.tree.root_edge == old(self).tree.root_edge,
                self.tree.table@ == old(self).tree.table@,
                1 <= path@.len() <= self.tree.cap + 1,
                forall|k: int|
                    0 <= k < path@.len() ==> self.tree.idx_ok((#[trigger] path@[k]).idx as int),
                path@[0].idx == root,
                path@[0].parent == old(self).tree.nodes@[root as int].parent,
                path@[0].hash == old(self).tree.nodes@[root as int].hash,
                (old(self).tree.nodes@[root as int].state != GameState::Ongoing) ==> ({
                    let st = old(self).tree.nodes@[root as int].state;
                    &&& path@.len() == 1
                    &&& path@[0].child_state == GameState::Ongoing
                    &&& (st == GameState::Draw ==> u == HALF_SCALE)
                    &&& ((st is Won) ==> u == SCALE)
                    &&& ((st is Lost) ==> u == 0)
                    &&& self.tree.nodes@.len() == old(self).tree.nodes@.len()
                    &&& forall|k: int|
                        old(self).tree.idx_ok(k) ==> (#[trigger] self.tree.nodes@[
                            k]).key_fields() == old(self).tree.nodes@[k].key_fields()
                }),
                warm_start_hit(old(self).tree) ==> (path@.len() == 1 && u as int
                    == SCALE as int - warm_start_value(old(self).tree)),
                u <= SCALE,
            decreases self.tree.cap - path@.len(),
        {
            self.tree.make_recently_used(cur);
            let nhash = self.tree.node(cur).hash();
            let nparent = self.tree.node(cur).parent();
            let naction = self.tree.node(cur).action();
            let terminal = self.tree.node(cur).is_terminal();
            let pe = self.tree.parent_edge(cur);
            let pvisits = pe.visits();
            // the path cannot meaningfully be longer than the arena;
            // a longer one means a stale pointer closed a cycle
            let cycle_guard = path.len() >= self.tree.cap();
            if terminal || pvisits == 0 || cycle_guard {
                let st = self.tree.node(cur).state();
                let mut from_table = false;
                if st == GameState::Ongoing {
                    match self.tree.probe_hash(nhash) {
                        Some(entry) => {
                            let qv = entry.1 / (entry.0 as u64);
                            proof {
                                crate::edge::lemma_div_bounded_by_scale(entry.1 as int,
                                    entry.0 as int);
                            }
                            u = SCALE - qv;
                            from_table = true;
                        },
                        None => {},
                    }
                }
                if !from_table {
                    u = self.get_utility(cur, pos);
                }
                path.push(Frame {
                    idx: cur,
                    hash: nhash,
                    parent: nparent,
                    action: naction,
                    child_state: GameState::Ongoing,
                });
                break;
            }
            if self.tree.node(cur).is_not_expanded() {
                self.tree.expand_node::<T, false>(cur, pos, &self.params);
            }
            if !self.tree.node(cur).has_children() {
                // the adapter yielded no move for an ongoing position;
                // fall back to a plain evaluation
                u = self.get_utility(cur, pos);
                path.push(Frame {
                    idx: cur,
                    hash: nhash,
                    parent: nparent,
                    action: naction,
                    child_state: GameState::Ongoing,
                });
                break;
            }
            let a = self.pick_action(cur);
            if a == usize::MAX {
                // every child is a proven win for the opponent
                u = self.get_utility(cur, pos);
                path.push(Frame {
                    idx: cur,
                    hash: nhash,
                    parent: nparent,
                    action: naction,
                    child_state: GameState::Ongoing,
                });
                break;
            }
            let e = self.tree.edge(cur, a);
            pos.make_move(e.mov());
            let mut child = e.ptr();
            proof {
                assert(self.tree.node_ok(self.tree.nodes@[cur as int]));
            }
            if child == -1 {
                let st2 = pos.game_state();
                let h2 = pos.hash();
                child = self.tree.push(Node::new(st2, h2, cur, a));
                let alen = self.tree.node(cur).actions().len();
                if a < alen {
                    self.tree.set_edge_ptr(cur, a, child);
                }
            }
            let cs = self.tree.node(child).state();
            path.push(Frame {
                idx: cur,
                hash: nhash,
                parent: nparent,
                action: naction,
                child_state: cs,
            });
            cur = child;
        }

        // walk the path back up; the root's own step comes last,
        // outside the loop, so that its effect can be stated exactly
        let ghost n0 = self.tree.nodes@.len();
        let ghost oe = old(self).tree.root_edge;
        let mut i: usize = path.len();
        while i > 1
            invariant
                self.wf(),
                self.tree.nodes@.len() == n0,
                n0 > 0,
                self.tree.root == old(self).tree.root,
                self.tree.cap == old(self).tree.cap,
                self.params == old(self).params,
                self.root_position == old(self).root_position,
                self.tree.root_edge.visits >= oe.visits,
                self.tree.root_edge.wins >= oe.wins,
                self.tree.table@.len() == old(self).tree.table@.len(),
                1 <= path@.len(),
                forall|k: int|
                    0 <= k < path@.len() ==> self.tree.idx_ok((#[trigger] path@[k]).idx as int),
                path@[0].idx == old(self).tree.root,
                u <= SCALE,
                1 <= i <= path@.len(),
                (old(self).tree.nodes@[old(self).tree.root as int].state
                    != GameState::Ongoing) ==> ({
                    let st = old(self).tree.nodes@[old(self).tree.root as int].state;
                    &&& path@.len() == 1
                    &&& path@[0].child_state == GameState::Ongoing
                    &&& (st == GameState::Draw ==> u == HALF_SCALE)
                    &&& ((st is Won) ==> u == SCALE)
                    &&& ((st is Lost) ==> u == 0)
                    &&& self.tree.nodes@.len() == old(self).tree.nodes@.len()
                    &&& forall|k: int|
                        old(self).tree.idx_ok(k) ==> (#[trigger] self.tree.nodes@[
                            k]).key_fields() == old(self).tree.nodes@[k].key_fields()
                }),
                warm_start_hit(old(self).tree) ==> (path@.len() == 1 && u as int
                    == SCALE as int - warm_start_value(old(self).tree)),
            decreases i,
        {
            i = i - 1;
            let f = path[i];
            u = SCALE - u;
            let stats = self.tree.update_edge_stats(f.parent, f.action, u);
            self.tree.push_hash(f.hash, stats.0, stats.1);
            match f.child_state {
                GameState::Lost(n) => {
                    let wl: u32 = if n < u32::MAX {
                        n + 1
                    } else {
                        n
                    };
                    self.tree.set_node_state(f.idx, GameState::Won(wl));
                },
                _ => {},
            }
            self.tree.make_recently_used(f.idx);
        }

        // the root's own backpropagation step
        let f = path[0];
        u = SCALE - u;
        let ghost pre_edge = self.tree.root_edge;
        let stats = self.tree.update_edge_stats(f.parent, f.action, u);
        self.tree.push_hash(f.hash, stats.0, stats.1);
        match f.child_state {
            GameState::Lost(n) => {
                let wl: u32 = if n < u32::MAX {
                    n + 1
                } else {
                    n
                };
                self.tree.set_node_state(f.idx, GameState::Won(wl));
            },
            _ => {},
        }
        self.tree.make_recently_used(f.idx);
        *depth = *depth + path.len();
        proof {
            if old(self).tree.nodes@[old(self).tree.root as int].parent == -1 {
                assert(self.tree.root_edge == Tree::edge_after_update(pre_edge, u));
                assert(pre_edge.visits >= oe.visits && pre_edge.wins >= oe.wins);
            }
        }
        u
    }

    /// Principal variation of at most `depth` moves (unbounded while a
    /// mate is proven, up to the arena size), walked by best child from
    /// the root, together with the best root edge's mean value.
    fn get_pv(&self, depth: usize) -> (r: (Vec<u16>, u64))
        requires
            self.wf(),
            self.tree.nodes@.len() > 0,
            self.tree.idx_ok(self.tree.root as int),
        ensures
            r.1 <= SCALE,
            r.0@.len() <= self.tree.cap,
            ({
                let acts = self.tree.nodes@[self.tree.root as int].actions@;
                let e = acts[Tree::best_idx(acts, acts.len() as int)];
                let mate = (self.tree.nodes@[self.tree.root as int].state
                    != GameState::Ongoing);
                &&& (acts.len() == 0 ==> r.0@ == Seq::<u16>::empty() && r.1 == 0)
                &&& (acts.len() > 0 ==> r.1 == e.q_spec())
                &&& (acts.len() > 0 ==> r.0@ == pv_spec(self.tree, e, depth as int, mate,
                    self.tree.cap as nat))
            }),
    {
        let root = self.tree.root_node();
        let mate = self.tree.node(root).is_terminal();
        let idx = self.tree.get_best_child(root);
        if idx == usize::MAX {
            let alen = self.tree.node(root).actions().len();
            assert(alen == 0);
            return (Vec::new(), 0);
        }
        let mut action = self.tree.edge(root, idx);
        proof {
            assert(self.tree.node_ok(self.tree.nodes@[root as int]));
        }
        let score = action.q();
        let mut pv: Vec<u16> = Vec::new();
        let mut d = depth;
        let ghost e0 = action;
        while (mate || d > 0) && action.ptr() != -1 && pv.len() < self.tree.cap()
            invariant_except_break
                self.wf(),
                self.tree.nodes@.len() > 0,
                action.inv(),
                action.ptr == -1 || self.tree.idx_ok(action.ptr as int),
                pv@.len() <= self.tree.cap,
                pv@ + pv_spec(self.tree, action, d as int, mate,
                    (self.tree.cap - pv@.len()) as nat) == pv_spec(self.tree, e0,
                    depth as int, mate, self.tree.cap as nat),
            ensures
                pv@.len() <= self.tree.cap,
                pv@ == pv_spec(self.tree, e0, depth as int, mate, self.tree.cap as nat),
            decreases self.tree.cap - pv@.len(),
        {
            let ghost pv0 = pv@;
            let ghost d0 = d;
            let ghost fuel0: nat = (self.tree.cap - pv@.len()) as nat;
            pv.push(action.mov());
            let p = action.ptr();
            let next = self.tree.get_best_child(p);
            if next == usize::MAX {
                let alen = self.tree.node(p).actions().len();
                assert(alen == 0);
                proof {
                    assert(pv_spec(self.tree, action, d0 as int, mate, fuel0)
                        =~= seq![action.mov]);
                    assert(pv@ =~= pv0 + seq![action.mov]);
                    assert(pv@ =~= pv_spec(self.tree, e0, depth as int, mate,
                        self.tree.cap as nat));
                }
                break;
            }
            let ghost prev_action = action;
            action = self.tree.edge(p, next);
            proof {
                assert(self.tree.node_ok(self.tree.nodes@[p as int]));
            }
            if d > 0 {
                d = d - 1;
            }
            proof {
                assert(pv_spec(self.tree, prev_action, d0 as int, mate, fuel0)
                    =~= seq![prev_action.mov] + pv_spec(self.tree, action, d as int, mate,
                    (fuel0 - 1) as nat));
                assert(pv@ + pv_spec(self.tree, action, d as int, mate,
                    (self.tree.cap - pv@.len()) as nat) =~= pv_spec(self.tree, e0,
                    depth as int, mate, self.tree.cap as nat));
            }
        }
        proof {
            assert(pv@ =~= pv_spec(self.tree, e0, depth as int, mate, self.tree.cap as nat));
        }
        (pv, score)
    }

    /// Gathers one progress report: the reported depth, the score — a
    /// mate distance in moves when the best mean value is exactly one
    /// or zero, the mean value itself otherwise — the elapsed time,
    /// the node count, the arena fill in permille, and the principal
    /// variation.
    fn build_info(&self, depth: usize, time_ms: u128, nodes: usize) -> (r: SearchInfo)
        requires
            self.wf(),
            self.tree.nodes@.len() > 0,
            self.tree.idx_ok(self.tree.root as int),
        ensures
            r.depth == depth,
            r.time_ms == time_ms,
            r.nodes == nodes,
            r.hashfull as int == (if self.tree.nodes@.len() as int * 1000 <= usize::MAX {
                self.tree.nodes@.len() as int * 1000 / (self.tree.cap as int)
            } else {
                1000int
            }),
            ({
                let acts = self.tree.nodes@[self.tree.root as int].actions@;
                let mate = (self.tree.nodes@[self.tree.root as int].state
                    != GameState::Ongoing);
                let q: int = if acts.len() == 0 {
                    0
                } else {
                    acts[Tree::best_idx(acts, acts.len() as int)].q_spec()
                };
                let pvs = if acts.len() == 0 {
                    Seq::<u16>::empty()
                } else {
                    pv_spec(self.tree, acts[Tree::best_idx(acts, acts.len() as int)],
                        depth as int, mate, self.tree.cap as nat)
                };
                &&& r.pv@ == pvs
                &&& (q == SCALE as int ==> r.score == Score::MateIn(((pvs.len() + 1)
                    / 2) as usize))
                &&& (q == 0 ==> r.score == Score::MatedIn((pvs.len() / 2) as usize))
                &&& (0 < q < SCALE as int ==> r.score == Score::Value(q as u64))
            }),
    {
        let (pv, score) = self.get_pv(depth);
        let score_rec = if score == SCALE {
            Score::MateIn((pv.len() + 1) / 2)
        } else if score == 0 {
            Score::MatedIn(pv.len() / 2)
        } else {
            Score::Value(score)
        };
        let used = self.tree.len();
        let capacity = self.tree.cap();
        let hashfull = match used.checked_mul(1000) {
            Some(x) => x / capacity,
            None => 1000,
        };
        SearchInfo { depth, score: score_rec, time_ms, nodes, hashfull, pv }
    }

    /// Runs the search: reuses a subtree matching the root position if
    /// the previous search allows it, expands or relabels the root,
    /// then iterates the protocol until a proven terminal root, the
    /// node limit, the sampled wall-clock limit or the depth limit
    /// stops it. Returns the most-visited root move (ties broken by
    /// mean value, then prior) and its mean value in `SCALE` units, or
    /// `(0, 0)` if the root has no legal move. Progress reports are
    /// handed to the position's `report` when `uci_output` is set, and
    /// the number of counted iterations is added (saturating) to
    /// `total_nodes`.
    pub fn search(
        &mut self,
        limits: Limits,
        uci_output: bool,
        total_nodes: &mut usize,
        prev_board: &Option<T>,
    ) -> (r: (u16, u64))
        requires
            old(self).wf(),
        ensures
            final(self).wf(),
            final(self).tree.nodes@.len() > 0,
            final(self).tree.idx_ok(final(self).tree.root as int),
            final(self).tree.lru_head == final(self).tree.root,
            final(self).params == old(self).params,
            final(self).root_position == old(self).root_position,
            final(self).tree.root_edge.visits >= 1,
            r.1 <= SCALE,
            *final(total_nodes) >= *old(total_nodes),
            *final(total_nodes) <= *old(total_nodes) + limits.max_nodes,
            ({
                let acts = final(self).tree.nodes@[final(self).tree.root as int].actions@;
                &&& (acts.len() == 0 ==> r == (0u16, 0u64))
                &&& (acts.len() > 0 ==> exists|i: int|
                    0 <= i < acts.len() && r.0 == (#[trigger] acts[i]).mov && r.1
                        == acts[i].q_spec() && (forall|j: int|
                        0 <= j < acts.len() ==> !Tree::better(acts[j], acts[i])))
            }),
    {
        let timer = clock_start();

        // attempt to reuse the tree kept from the previous decision
        self.tree.try_use_subtree(&self.root_position, prev_board);
        let root = self.tree.root_node();

        // a reused root keeps its edges but needs priors under the root
        // softmax temperature; a fresh root needs expansion
        if self.tree.node(root).has_children() {
            self.tree.relabel_node(root, &self.root_position, &self.params);
        } else {
            self.tree.expand_node::<T, true>(root, &self.root_position, &self.params);
        }

        let mut nodes: usize = 0;
        let mut depth: usize = 0;
        let mut cumulative_depth: usize = 0;

        loop
            invariant_except_break
                self.wf(),
                self.tree.nodes@.len() > 0,
                self.tree.idx_ok(self.tree.root as int),
                root == self.tree.root,
                self.tree.lru_head == self.tree.root,
                self.params == old(self).params,
                self.root_position == old(self).root_position,
                self.tree.root_edge.visits >= 1 || self.tree.nodes@[
                    self.tree.root as int].parent == -1,
                nodes <= limits.max_nodes,
            ensures
                self.wf(),
                self.tree.nodes@.len() > 0,
                self.tree.idx_ok(self.tree.root as int),
                root == self.tree.root,
                self.tree.lru_head == self.tree.root,
                self.params == old(self).params,
                self.root_position == old(self).root_position,
                self.tree.root_edge.visits >= 1,
                nodes <= limits.max_nodes,
            decreases limits.max_nodes - nodes,
        {
            let mut pos = self.root_position.clone();
            let mut this_depth: usize = 0;
            let _ = self.perform_one_iteration(&mut pos, &mut this_depth);

            // "depth" for reports is the average selection depth
            let d1 = this_depth - 1;
            cumulative_depth = if cumulative_depth <= usize::MAX - d1 {
                cumulative_depth + d1
            } else {
                usize::MAX
            };

            // a proven result at the root ends the search
            if self.tree.node(root).is_terminal() {
                break;
            }
            if nodes >= limits.max_nodes {
                break;
            }
            nodes = nodes + 1;

            // the clock is sampled every 128 iterations
            match limits.max_time {
                Some(t) => {
                    if nodes % 128 == 0 && clock_elapsed_millis(&timer) >= t {
                        break;
                    }
                },
                None => {},
            }

            let avg_depth = cumulative_depth / nodes;
            if avg_depth > depth {
                depth = avg_depth;
                if depth >= limits.max_depth {
                    break;
                }
                if uci_output {
                    let el = clock_elapsed_millis(&timer);
                    let info = self.build_info(depth, el, nodes);
                    self.root_position.report(&info);
                }
            }
        }

        *total_nodes = if *total_nodes <= usize::MAX - nodes {
            *total_nodes + nodes
        } else {
            usize::MAX
        };

        if uci_output {
            let d = if depth > 1 {
                depth
            } else {
                1
            };
            let el = clock_elapsed_millis(&timer);
            let info = self.build_info(d, el, nodes);
            self.root_position.report(&info);
        }

        let best = self.tree.get_best_child(root);
        if best == usize::MAX {
            let alen = self.tree.node(root).actions().len();
            assert(alen == 0);
            return (0, 0);
        }
        let e = self.tree.edge(root, best);
        (e.mov(), e.q())
    }
}

/// One level of the selection path: the node visited, its identifying
/// fields as read on entry, and the state of the child descended into
/// (recorded as the neutral `Ongoing` at the leaf).
#[derive(Clone, Copy)]
struct Frame {
    idx: i32,
    hash: u64,
    parent: i32,
    action: usize,
    child_state: GameState,
}

} // verus!
