use vstd::prelude::*;
use vstd::arithmetic::div_mod::lemma_div_is_ordered;
use vstd::arithmetic::div_mod::lemma_div_by_multiple;
use vstd::arithmetic::div_mod::lemma_fundamental_div_mod;
use vstd::arithmetic::div_mod::lemma_mod_bound;

verus! {

/// Fixed-point unit: the integer that stands for probability 1.
pub const SCALE: u64 = 65536;

/// Fixed-point representation of probability 1/2.
pub const HALF_SCALE: u64 = 32768;

/// Denominator of the quantized prior stored in an edge (`i16::MAX`).
pub const POLICY_ONE: u64 = 32767;

/// A (parent-state, move) pair caching the statistics of the subtree
/// below it. `ptr` is the child node's arena index, or -1 while no child
/// node has been materialized. The prior is kept quantized: the stored
/// `policy` is the numerator of a fraction over `POLICY_ONE`.
#[derive(Clone, Copy, Debug)]
pub struct Edge {
    pub ptr: i32,
    pub mov: u16,
    pub policy: i16,
    pub visits: u32,
    pub wins: u64,
    pub minimax_value: Option<u64>,
}

impl Edge {
    /// Well-formedness: the prior is a valid numerator and the win sum
    /// never exceeds the visit count, both in `SCALE` units.
    pub open spec fn inv(self) -> bool {
        &&& 0 <= self.policy as int <= POLICY_ONE as int
        &&& self.wins as int <= self.visits as int * SCALE as int
        &&& match self.minimax_value {
            Some(v) => v as int <= SCALE as int,
            None => true,
        }
    }

    /// Mean backed-up value of the edge, in `SCALE` units; 0 while the
    /// edge has never been visited.
    pub open spec fn q_spec(self) -> int {
        if self.visits == 0 {
            0
        } else {
            self.wins as int / self.visits as int
        }
    }

    /// The quantized numerator stored for a prior `p` given in `SCALE` units.
    pub open spec fn quantized(p: int) -> int {
        p * POLICY_ONE as int / SCALE as int
    }

    /// The minimax estimate an edge contributes: its cached value when
    /// present, its mean value otherwise.
    pub open spec fn estimate_spec(self) -> int {
        match self.minimax_value {
            Some(v) => v as int,
            None => self.q_spec(),
        }
    }

    /// Largest minimax estimate among the first `n` edges (at least 0).
    pub open spec fn max_estimate(acts: Seq<Edge>, n: int) -> int
        decreases n,
    {
        if n <= 0 {
            0
        } else {
            let prev = Edge::max_estimate(acts, n - 1);
            let cur = acts[n - 1].estimate_spec();
            if cur >= prev {
                cur
            } else {
                prev
            }
        }
    }

    pub fn new(ptr: i32, mov: u16, policy: i16) -> (r: Self)
        requires
            0 <= policy as int <= POLICY_ONE as int,
        ensures
            r.ptr == ptr,
            r.mov == mov,
            r.policy == policy,
            r.visits == 0,
            r.wins == 0,
            r.minimax_value.is_none(),
            r.inv(),
    {
        Edge { ptr, mov, policy, visits: 0, wins: 0, minimax_value: None }
    }

    pub fn ptr(&self) -> (r: i32)
        ensures
            r == self.ptr,
    {
        self.ptr
    }

    pub fn mov(&self) -> (r: u16)
        ensures
            r == self.mov,
    {
        self.mov
    }

    /// Numerator of the dequantized prior; the prior's exact value is
    /// `policy / POLICY_ONE`.
    pub fn policy(&self) -> (r: i16)
        ensures
            r == self.policy,
    {
        self.policy
    }

    pub fn visits(&self) -> (r: u32)
        ensures
            r == self.visits,
    {
        self.visits
    }

    pub fn wins(&self) -> (r: u64)
        ensures
            r == self.wins,
    {
        self.wins
    }

    /// Mean value in `SCALE` units; 0 for an unvisited edge.
    pub fn q(&self) -> (r: u64)
        requires
            self.inv(),
        ensures
            r == self.q_spec(),
            r <= SCALE,
    {
        if self.visits == 0 {
            0
        } else {
            proof {
                lemma_div_bounded_by_scale(self.wins as int, self.visits as int);
            }
            self.wins / (self.visits as u64)
        }
    }

    /// Cached minimax estimate, falling back to the mean value.
    pub fn minimax_value(&self) -> (r: u64)
        requires
            self.inv(),
        ensures
            r <= SCALE,
            r == match self.minimax_value {
                Some(v) => v as int,
                None => self.q_spec(),
            },
    {
        match self.minimax_value {
            Some(v) => v,
            None => self.q(),
        }
    }

    pub fn set_ptr(&mut self, ptr: i32)
        ensures
            *final(self) == (Edge { ptr, ..*old(self) }),
    {
        self.ptr = ptr;
    }

    /// Stores a prior given in `SCALE` units, quantized over `POLICY_ONE`.
    pub fn set_policy(&mut self, policy: u64)
        requires
            policy <= SCALE,
        ensures
            final(self).policy as int == Edge::quantized(policy as int),
            0 <= final(self).policy as int <= POLICY_ONE as int,
            *final(self) == (Edge { policy: final(self).policy, ..*old(self) }),
    {
        let num: u64 = policy * POLICY_ONE;
        let quant: u64 = num / SCALE;
        proof {
            lemma_div_is_ordered(num as int, (SCALE * POLICY_ONE) as int, SCALE as int);
            lemma_div_by_multiple(POLICY_ONE as int, SCALE as int);
        }
        self.policy = quant as i16;
    }

    pub fn set_stats(&mut self, visits: u32, wins: u64)
        requires
            wins as int <= visits as int * SCALE as int,
        ensures
            *final(self) == (Edge { visits, wins, ..*old(self) }),
    {
        self.visits = visits;
        self.wins = wins;
    }

    /// Adds one backed-up result to the edge's statistics. The visit
    /// count saturates at `u32::MAX`; below that bound one call adds
    /// exactly one visit and `result` wins. When `actions` (the child
    /// node's edges) is non-empty, the cached minimax estimate is
    /// refreshed from the children's estimates.
    pub fn update(&mut self, result: u64, actions: &Vec<Edge>)
        requires
            old(self).inv(),
            result <= SCALE,
            forall|i: int| 0 <= i < actions@.len() ==> (#[trigger] actions@[i]).inv(),
        ensures
            final(self).inv(),
            old(self).visits < u32::MAX ==> {
                &&& final(self).visits == old(self).visits + 1
                &&& final(self).wins == old(self).wins + result
            },
            old(self).visits == u32::MAX ==> {
                &&& final(self).visits == old(self).visits
                &&& final(self).wins == old(self).wins
            },
            final(self).ptr == old(self).ptr,
            final(self).mov == old(self).mov,
            final(self).policy == old(self).policy,
            actions@.len() == 0 ==> final(self).minimax_value == old(self).minimax_value,
            actions@.len() > 0 ==> final(self).minimax_value == Some((SCALE as int
                - Edge::max_estimate(actions@, actions@.len() as int)) as u64),
    {
        if self.visits < u32::MAX {
            self.visits = self.visits + 1;
            self.wins = self.wins + result;
        }

        if actions.len() > 0 {
            let mut best: u64 = 0;
            let mut i: usize = 0;
            while i < actions.len()
                invariant
                    best <= SCALE,
                    best as int == Edge::max_estimate(actions@, i as int),
                    i <= actions@.len(),
                    forall|j: int| 0 <= j < actions@.len() ==> (#[trigger] actions@[j]).inv(),
                decreases actions@.len() - i,
            {
                let v = actions[i].minimax_value();
                if v >= best {
                    best = v;
                }
                i = i + 1;
            }
            self.minimax_value = Some(SCALE - best);
        }
    }
}

impl Default for Edge {
    /// An empty edge: no child, move 0, zero prior and statistics.
    fn default() -> (r: Self)
        ensures
            r.ptr == -1,
            r.mov == 0,
            r.policy == 0,
            r.visits == 0,
            r.wins == 0,
            r.minimax_value.is_none(),
            r.inv(),
    {
        Edge { ptr: -1, mov: 0, policy: 0, visits: 0, wins: 0, minimax_value: None }
    }
}

/// Dividing a win sum by its visit count stays within the unit scale.
pub proof fn lemma_div_bounded_by_scale(wins: int, visits: int)
    requires
        0 <= wins <= visits * SCALE as int,
        0 < visits,
    ensures
        0 <= wins / visits <= SCALE as int,
{
    lemma_div_is_ordered(wins, visits * SCALE as int, visits);
    lemma_div_by_multiple(SCALE as int, visits);
    assert(visits * SCALE as int == SCALE as int * visits) by (nonlinear_arith);
}

/// Law: a visited edge's win sum lies between 0 and its visit count, and
/// its mean value `q` lies in `[0, 1]` — both in `SCALE` units.
pub proof fn lemma_edge_value_bounds(e: Edge)
    requires
        e.inv(),
        e.visits > 0,
    ensures
        0 <= e.wins as int <= e.visits as int * SCALE as int,
        0 <= e.q_spec() <= SCALE as int,
{
    lemma_div_bounded_by_scale(e.wins as int, e.visits as int);
}

/// Law: quantizing a prior `p` (given in `SCALE` units) and reading it
/// back as the fraction `quantized(p) / POLICY_ONE` loses less than
/// `1 / POLICY_ONE`: cross-multiplied, the recovered numerator differs
/// from the exact one by less than one `SCALE` unit.
pub proof fn lemma_policy_round_trip(p: int)
    requires
        0 <= p <= SCALE as int,
    ensures
        0 <= p * (POLICY_ONE as int) - Edge::quantized(p) * (SCALE as int) < (SCALE as int),
{
    let x = p * (POLICY_ONE as int);
    let q = x / (SCALE as int);
    lemma_fundamental_div_mod(x, SCALE as int);
    lemma_mod_bound(x, SCALE as int);
    assert(p * (POLICY_ONE as int) >= 0) by (nonlinear_arith)
        requires p >= 0;
    assert(Edge::quantized(p) == q);
    assert(q * (SCALE as int) == (SCALE as int) * q) by (nonlinear_arith);
}

} // verus!
