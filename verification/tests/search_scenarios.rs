use std::cell::Cell;
use std::cell::RefCell;
use std::rc::Rc;
use std::time::Instant;

use mcts_core::GameRep;
use mcts_core::GameState;
use mcts_core::Limits;
use mcts_core::MctsParams;
use mcts_core::Score;
use mcts_core::SearchInfo;
use mcts_core::Searcher;
use mcts_core::Tree;
use mcts_core::SCALE;

const MATE_IN_ONE: u32 = 1;
const FORCED_LOSS: u32 = 2;
const THREE_PRIORS: u32 = 3;
const CHAIN: u32 = 4;
const TRANSPOSITION: u32 = 5;
const DEEP: u32 = 6;

/// A family of small table games driving the search end to end. The
/// shared counters observe value-network calls and progress reports.
#[derive(Clone)]
struct Scenario {
    kind: u32,
    id: u64,
    evals: Rc<Cell<usize>>,
    reports: Rc<RefCell<Vec<SearchInfo>>>,
}

impl Scenario {
    fn new(kind: u32) -> Self {
        Scenario {
            kind,
            id: 0,
            evals: Rc::new(Cell::new(0)),
            reports: Rc::new(RefCell::new(Vec::new())),
        }
    }
}

impl GameRep for Scenario {
    fn game_state(&self) -> GameState {
        match self.kind {
            MATE_IN_ONE => {
                if self.id == 1 {
                    GameState::Lost(0)
                } else {
                    GameState::Ongoing
                }
            }
            FORCED_LOSS => {
                if self.id == 1 || self.id == 2 {
                    GameState::Won(0)
                } else {
                    GameState::Ongoing
                }
            }
            CHAIN => {
                if self.id >= 50 {
                    GameState::Draw
                } else {
                    GameState::Ongoing
                }
            }
            _ => GameState::Ongoing,
        }
    }

    fn hash(&self) -> u64 {
        match self.kind {
            TRANSPOSITION => {
                if self.id == 0 {
                    100
                } else {
                    // both children transpose to one position
                    777
                }
            }
            CHAIN => self.id,
            _ => self.id.wrapping_mul(0x9E3779B97F4A7C15).wrapping_add(3),
        }
    }

    fn make_move(&mut self, mov: u16) {
        match self.kind {
            CHAIN => self.id += 1,
            DEEP => self.id = self.id * 2 + mov as u64,
            _ => self.id = self.id * 10 + mov as u64,
        }
    }

    fn get_value_wdl(&self) -> u64 {
        self.evals.set(self.evals.get() + 1);
        match self.kind {
            TRANSPOSITION => {
                if self.id == 2 {
                    SCALE
                } else if self.id == 1 {
                    SCALE / 3
                } else {
                    SCALE / 2
                }
            }
            _ => SCALE / 2,
        }
    }

    fn policy_moves(&self, _pst: u64) -> Vec<(u16, u64)> {
        match self.kind {
            MATE_IN_ONE => vec![(1, SCALE * 9 / 10)],
            FORCED_LOSS => vec![(1, SCALE / 2), (2, SCALE / 2)],
            THREE_PRIORS => vec![(1, SCALE / 5), (2, SCALE * 7 / 10), (3, SCALE / 10)],
            CHAIN => vec![(1, SCALE)],
            TRANSPOSITION => vec![(1, SCALE / 10), (2, SCALE * 9 / 10)],
            _ => vec![(1, SCALE / 2), (2, SCALE / 2)],
        }
    }

    fn conv_mov_to_str(&self, mov: u16) -> String {
        format!("m{mov}")
    }

    fn report(&self, info: &SearchInfo) {
        self.reports.borrow_mut().push(info.clone());
    }
}

fn no_time(max_nodes: usize) -> Limits {
    Limits { max_time: None, max_depth: usize::MAX, max_nodes }
}

/// Forced mate in one: the single move leads to a position lost for the
/// opponent; the root is proven `Won(1)` after two iterations, the best
/// value is certainty, and the reported score is mate in one.
#[test]
fn forced_mate_in_one() {
    let game = Scenario::new(MATE_IN_ONE);
    let reports = Rc::clone(&game.reports);
    let mut s = Searcher::new(game, Tree::new(64), MctsParams::default());
    let mut total: usize = 0;
    let (mov, q) = s.search(no_time(100), true, &mut total, &None);
    assert_eq!(mov, 1);
    assert_eq!(q, SCALE);
    assert_eq!(total, 1);
    let (tree, _) = s.tree_and_board();
    let root = tree.root_node();
    assert_eq!(tree.node(root).state(), GameState::Won(1));
    let rep = reports.borrow();
    let last = rep.last().expect("a final report");
    assert!(matches!(last.score, Score::MateIn(1)));
    assert_eq!(last.pv.len(), 1);
    assert_eq!(last.pv[0], 1);
    // two nodes live in a 64-slot arena: 2 * 1000 / 64 permille
    assert_eq!(last.hashfull, 31);
    assert_eq!(last.nodes, 1);
}

/// Forced loss: every root move reaches a position already won for the
/// opponent. Once each child has been visited, selection proves the
/// loss, the root becomes `Lost(1)` and the loop exits; the report says
/// mated in zero with a one-move principal variation.
#[test]
fn forced_loss_proves_root_lost() {
    let game = Scenario::new(FORCED_LOSS);
    let reports = Rc::clone(&game.reports);
    let mut s = Searcher::new(game, Tree::new(64), MctsParams::default());
    let mut total: usize = 0;
    let (_mov, q) = s.search(no_time(100), true, &mut total, &None);
    assert_eq!(q, 0);
    let (tree, _) = s.tree_and_board();
    let root = tree.root_node();
    assert_eq!(tree.node(root).state(), GameState::Lost(1));
    let rep = reports.borrow();
    let last = rep.last().expect("a final report");
    assert!(matches!(last.score, Score::MatedIn(0)));
    assert_eq!(last.pv.len(), 1);
}

/// Policy-only fallback: with a node budget of zero the search returns
/// right after root expansion, and the move with the highest prior
/// after root softmax is returned.
#[test]
fn zero_node_budget_returns_highest_prior_move() {
    let game = Scenario::new(THREE_PRIORS);
    let mut s = Searcher::new(game, Tree::new(64), MctsParams::default());
    let mut total: usize = 0;
    let (mov, _q) = s.search(no_time(0), false, &mut total, &None);
    assert_eq!(mov, 2);
    assert_eq!(total, 0);
}

/// After a search of N counted iterations on an ongoing position, the
/// root edges' visit counts sum to exactly N.
#[test]
fn root_visits_sum_to_counted_iterations() {
    let game = Scenario::new(DEEP);
    let mut s = Searcher::new(game, Tree::new(4096), MctsParams::default());
    let mut total: usize = 0;
    let _ = s.search(no_time(40), false, &mut total, &None);
    assert_eq!(total, 40);
    let (tree, _) = s.tree_and_board();
    let root = tree.root_node();
    let mut sum: u64 = 0;
    for e in tree.node(root).actions().iter() {
        sum += e.visits() as u64;
    }
    assert_eq!(sum, 40);
}

/// With a time budget of zero and an unlimited node budget, the loop
/// still stops promptly: the sampled clock check fires at the 128th
/// counted iteration.
#[test]
fn zero_time_budget_stops_at_first_clock_sample() {
    let game = Scenario::new(DEEP);
    let mut s = Searcher::new(game, Tree::new(1024), MctsParams::default());
    let mut total: usize = 0;
    let limits = Limits {
        max_time: Some(0),
        max_depth: usize::MAX,
        max_nodes: usize::MAX,
    };
    let _ = s.search(limits, false, &mut total, &None);
    assert_eq!(total, 128);
}

/// Time cancellation: with a 50 ms budget the search returns shortly
/// after the budget elapses.
#[test]
fn time_budget_is_respected() {
    let game = Scenario::new(DEEP);
    let mut s = Searcher::new(game, Tree::new(1024), MctsParams::default());
    let mut total: usize = 0;
    let limits = Limits {
        max_time: Some(50),
        max_depth: usize::MAX,
        max_nodes: usize::MAX,
    };
    let start = Instant::now();
    let _ = s.search(limits, false, &mut total, &None);
    let elapsed = start.elapsed().as_millis();
    assert!(elapsed >= 50, "returned after {elapsed} ms");
    assert!(elapsed < 3000, "returned after {elapsed} ms");
}

/// Transposition reuse: two root moves lead to positions with the same
/// hash. After the first is evaluated and published, the second child's
/// first visit draws its value from the transposition table instead of
/// the value network — observed by counting network calls.
#[test]
fn transposition_probe_replaces_second_evaluation() {
    let game = Scenario::new(TRANSPOSITION);
    let evals = Rc::clone(&game.evals);
    // a small exploration constant keeps selection on the mean values
    let params = MctsParams::new(655, 655, 65536, 65536);
    let mut s = Searcher::new(game, Tree::new(64), params);
    let mut total: usize = 0;
    let _ = s.search(no_time(2), false, &mut total, &None);
    // three iterations ran: the root and the first child were evaluated
    // by the network; the second child came from the table
    assert_eq!(total, 2);
    assert_eq!(evals.get(), 2);
}

/// Subtree reuse: after a search from R, replaying the first move and
/// the reply leads to a grandchild G of the stored tree; promoting the
/// subtree keeps G's hash and its edges' visit counts.
#[test]
fn subtree_reuse_preserves_grandchild_statistics() {
    let game = Scenario::new(CHAIN);
    let board0 = game.clone();
    let mut s = Searcher::new(game, Tree::new(256), MctsParams::default());
    let mut total: usize = 0;
    let _ = s.search(no_time(12), false, &mut total, &None);
    let (mut tree, _) = s.tree_and_board();
    let root = tree.root_node();
    let a = tree.node(root).actions()[0].ptr();
    assert!(a != -1, "child materialized");
    let g = tree.node(a).actions()[0].ptr();
    assert!(g != -1, "grandchild materialized");
    let g_hash = tree.node(g).hash();
    assert!(tree.node(g).actions().len() > 0, "grandchild expanded");
    let g_visits = tree.node(g).actions()[0].visits();
    assert!(g_visits > 0);

    let mut pos2 = Scenario::new(CHAIN);
    pos2.id = 2;
    assert_eq!(pos2.hash(), g_hash);
    tree.try_use_subtree(&pos2, &Some(board0));
    let new_root = tree.root_node();
    assert_eq!(new_root, g);
    assert_eq!(tree.node(new_root).hash(), pos2.hash());
    assert_eq!(tree.node(new_root).parent(), -1);
    assert_eq!(tree.node(new_root).actions()[0].visits(), g_visits);
}

/// One iteration on a fresh root evaluates a value, backs it up into
/// the synthetic root edge and leaves the root at the LRU head.
#[test]
fn single_iteration_updates_root_edge() {
    let game = Scenario::new(DEEP);
    let mut s = Searcher::new(game.clone(), Tree::new(64), MctsParams::default());
    s.tree.try_use_subtree(&game, &None);
    let root = s.tree.root_node();
    s.tree.expand_node::<Scenario, true>(root, &game, &MctsParams::default());
    let mut pos = game.clone();
    let mut depth: usize = 0;
    let u = s.perform_one_iteration(&mut pos, &mut depth);
    assert_eq!(depth, 1);
    assert_eq!(u, SCALE / 2);
    assert!(u <= SCALE);
}
