use mcts_core::GameRep;
use mcts_core::GameState;
use mcts_core::MctsParams;
use mcts_core::Node;
use mcts_core::SearchInfo;
use mcts_core::Tree;
use mcts_core::SCALE;

/// A minimal adapter: one ongoing position with three moves of fixed
/// priors; children are ongoing too.
#[derive(Clone)]
struct ThreeMoves {
    id: u64,
}

impl GameRep for ThreeMoves {
    fn game_state(&self) -> GameState {
        GameState::Ongoing
    }

    fn hash(&self) -> u64 {
        self.id.wrapping_mul(2654435761).wrapping_add(17)
    }

    fn make_move(&mut self, mov: u16) {
        self.id = self.id * 10 + mov as u64;
    }

    fn get_value_wdl(&self) -> u64 {
        SCALE / 2
    }

    fn policy_moves(&self, _pst: u64) -> Vec<(u16, u64)> {
        vec![
            (1, SCALE / 5),
            (2, SCALE * 7 / 10),
            (3, SCALE / 10),
        ]
    }

    fn conv_mov_to_str(&self, mov: u16) -> String {
        format!("m{mov}")
    }

    fn report(&self, _info: &SearchInfo) {}
}

#[test]
fn fresh_tree_is_empty() {
    let t = Tree::new(16);
    assert_eq!(t.len(), 0);
    assert_eq!(t.cap(), 16);
    assert_eq!(t.root_node(), -1);
}

/// Arena at capacity: inserting one node more than fits keeps the live
/// count at the capacity, and the least-recently-used (the first
/// inserted, never re-touched) node's slot is the one reused.
#[test]
fn push_at_capacity_evicts_lru_tail() {
    let mut t = Tree::new(2);
    let r = t.push(Node::new(GameState::Ongoing, 10, -1, 0));
    assert_eq!(r, 0);
    t.set_root(r);
    let a = t.push(Node::new(GameState::Ongoing, 11, 0, 0));
    assert_eq!(a, 1);
    assert_eq!(t.len(), 2);
    // protect the root, as every iteration does
    t.make_recently_used(r);
    let b = t.push(Node::new(GameState::Ongoing, 12, 0, 1));
    // the first-inserted non-root node was evicted and its slot reused
    assert_eq!(b, 1);
    assert_eq!(t.len(), 2);
    assert_eq!(t.node(0).hash(), 10);
    assert_eq!(t.node(1).hash(), 12);
}

#[test]
fn hash_table_probe_returns_pushed_stats() {
    let mut t = Tree::new(8);
    assert!(t.probe_hash(999).is_none());
    t.push_hash(999, 4, 3 * SCALE);
    let hit = t.probe_hash(999).expect("entry stored");
    assert_eq!(hit.0, 4);
    assert_eq!(hit.1, 3 * SCALE);
    // an always-replace slot: a colliding hash overwrites
    t.push_hash(999, 5, 5 * SCALE);
    let hit2 = t.probe_hash(999).expect("entry replaced");
    assert_eq!(hit2.0, 5);
}

/// With every edge unvisited, the best child is the one with the
/// highest prior.
#[test]
fn best_child_of_unvisited_node_has_max_prior() {
    let game = ThreeMoves { id: 0 };
    let params = MctsParams::default();
    let mut t = Tree::new(8);
    let r = t.push(Node::new(GameState::Ongoing, game.hash(), -1, 0));
    t.set_root(r);
    t.expand_node::<ThreeMoves, true>(r, &game, &params);
    assert_eq!(t.node(r).actions().len(), 3);
    let best = t.get_best_child(r);
    assert_eq!(best, 1);
    assert_eq!(t.node(r).actions()[best].mov(), 2);
}

#[test]
fn best_child_prefers_visits_then_q() {
    let game = ThreeMoves { id: 0 };
    let params = MctsParams::default();
    let mut t = Tree::new(8);
    let r = t.push(Node::new(GameState::Ongoing, game.hash(), -1, 0));
    t.set_root(r);
    t.expand_node::<ThreeMoves, true>(r, &game, &params);
    // give the lowest-prior move the most visits: it wins
    t.update_edge_stats(r, 2, SCALE / 2);
    t.update_edge_stats(r, 2, SCALE / 2);
    t.update_edge_stats(r, 0, SCALE);
    let best = t.get_best_child(r);
    assert_eq!(best, 2);
}

/// After a fresh start the promoted root carries the position's hash.
#[test]
fn subtree_reuse_fresh_root_has_position_hash() {
    let mut t = Tree::new(8);
    t.try_use_subtree_by_hash(4242, GameState::Ongoing, false);
    let root = t.root_node();
    assert_eq!(t.len(), 1);
    assert_eq!(t.node(root).hash(), 4242);
    assert_eq!(t.node(root).parent(), -1);
}

/// A child whose hash matches the new position is promoted to root and
/// keeps its identity.
#[test]
fn subtree_reuse_promotes_matching_child() {
    let game = ThreeMoves { id: 0 };
    let params = MctsParams::default();
    let mut t = Tree::new(8);
    let r = t.push(Node::new(GameState::Ongoing, 100, -1, 0));
    t.set_root(r);
    t.expand_node::<ThreeMoves, true>(r, &game, &params);
    let c = t.push(Node::new(GameState::Ongoing, 200, r, 1));
    t.set_edge_ptr(r, 1, c);
    t.try_use_subtree_by_hash(200, GameState::Ongoing, true);
    let root = t.root_node();
    assert_eq!(root, c);
    assert_eq!(t.node(root).hash(), 200);
    assert_eq!(t.node(root).parent(), -1);
    // the former parent edge was detached
    assert_eq!(t.node(r).actions()[1].ptr(), -1);
}
