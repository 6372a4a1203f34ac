use vstd::prelude::*;
use crate::node::GameState;

verus! {

/// Score carried by a progress report: a proven mate (in plies for the
/// winning side), a proven loss, or a mean value in `SCALE` units.
#[derive(Clone, Debug)]
pub enum Score {
    MateIn(usize),
    MatedIn(usize),
    Value(u64),
}

/// One progress report of the search loop. All quantities are plain
/// integers; the driver turns them into protocol text (including any
/// logarithmic centipawn conversion and the nodes-per-second rate).
#[derive(Clone, Debug)]
pub struct SearchInfo {
    pub depth: usize,
    pub score: Score,
    pub time_ms: u128,
    pub nodes: usize,
    pub hashfull: usize,
    pub pv: Vec<u16>,
}

/// Capability the game adapter implements for the search core: move
/// generation with policy priors, terminal detection, hashing and value
/// evaluation. Priors and values are fixed-point integers in `SCALE`
/// units; the search clamps whatever an implementation returns, so no
/// contract is imposed here.
pub trait GameRep: Sized + Clone {
    /// Game-theoretic state of the current position.
    fn game_state(&self) -> GameState;

    /// 64-bit fingerprint of the current position.
    fn hash(&self) -> u64;

    /// Plays the 16-bit move code in place.
    fn make_move(&mut self, mov: u16);

    /// Win probability for the side to move, in `SCALE` units.
    fn get_value_wdl(&self) -> u64;

    /// Legal moves with their softmaxed priors (in `SCALE` units) under
    /// the given policy softmax temperature `pst` (in `SCALE` units).
    /// The ordering must be stable across one search.
    fn policy_moves(&self, pst: u64) -> Vec<(u16, u64)>;

    /// Protocol text for a move code; used only for reports.
    fn conv_mov_to_str(&self, mov: u16) -> String;

    /// Emits one progress report; called only when report output is on.
    fn report(&self, info: &SearchInfo);
}

} // verus!
