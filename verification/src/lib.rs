//! Core of a Monte-Carlo tree search engine: a fixed-capacity node arena
//! with LRU replacement, PUCT selection, terminal-proof propagation and
//! subtree reuse across successive decisions.
//!
//! All probabilities and mean values are carried as fixed-point integers:
//! a probability `p` in `[0, 1]` is represented by `p * SCALE` rounded
//! down, so `SCALE` stands for certainty. Edge priors are additionally
//! quantized to a signed 16-bit numerator over `POLICY_ONE`.

mod edge;
mod game;
mod node;
mod mcts;
mod params;
mod tree;

pub use edge::Edge;
pub use edge::SCALE;
pub use edge::HALF_SCALE;
pub use edge::POLICY_ONE;
pub use edge::lemma_edge_value_bounds;
pub use edge::lemma_policy_round_trip;
pub use game::GameRep;
pub use game::Score;
pub use game::SearchInfo;
pub use node::GameState;
pub use node::Node;
pub use params::MctsParams;
pub use params::CPUCT_MAX;
pub use tree::Tree;
pub use tree::HashEntry;
pub use mcts::Limits;
pub use mcts::Searcher;
pub use mcts::puct_spec;
pub use mcts::isqrt_spec;
pub use mcts::select_fpu;
pub use mcts::select_expl;
pub use mcts::won_ply;
pub use mcts::max_won_ply;
pub use mcts::lemma_isqrt_bounds;
pub use mcts::lemma_isqrt_unique;
pub use tree::lemma_update_adds_one_visit;
pub use node::clamped_prior;
pub use mcts::lemma_lost_node_has_winning_child;
pub use mcts::pv_spec;
pub use mcts::warm_start_hit;
pub use mcts::warm_start_value;
