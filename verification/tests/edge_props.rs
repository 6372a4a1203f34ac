use mcts_core::Edge;
use mcts_core::Node;
use mcts_core::GameState;
use mcts_core::SCALE;
use mcts_core::POLICY_ONE;

/// A prior survives quantization with an error of at most 1 / i16::MAX.
#[test]
fn quantize_round_trip_error_is_small() {
    let samples: [u64; 8] = [0, 1, 777, 4096, 32768, 50000, 65535, 65536];
    for &p in samples.iter() {
        let mut e = Edge::new(-1, 0, 0);
        e.set_policy(p);
        let stored = e.policy();
        assert!(stored >= 0);
        let original = p as f64 / SCALE as f64;
        let recovered = stored as f64 / POLICY_ONE as f64;
        let err = (original - recovered).abs();
        assert!(
            err <= 1.0 / POLICY_ONE as f64,
            "prior {original} recovered as {recovered}, error {err}"
        );
    }
}

#[test]
fn quantize_extremes_are_exact() {
    let mut e = Edge::new(-1, 0, 0);
    e.set_policy(SCALE);
    assert_eq!(e.policy(), 32767);
    e.set_policy(0);
    assert_eq!(e.policy(), 0);
}

/// A visited edge's wins stay within its visit count and q stays in [0, 1].
#[test]
fn update_keeps_wins_within_visits() {
    let mut e = Edge::new(-1, 3, 100);
    let empty: Vec<Edge> = Vec::new();
    e.update(SCALE, &empty);
    e.update(0, &empty);
    e.update(SCALE / 2, &empty);
    assert_eq!(e.visits(), 3);
    assert_eq!(e.wins(), SCALE + SCALE / 2);
    assert!(e.wins() <= e.visits() as u64 * SCALE);
    let q = e.q();
    assert!(q <= SCALE);
    assert_eq!(q, (SCALE + SCALE / 2) / 3);
}

#[test]
fn unvisited_edge_q_is_zero() {
    let e = Edge::new(-1, 0, 5000);
    assert_eq!(e.visits(), 0);
    assert_eq!(e.q(), 0);
}

#[test]
fn default_edge_is_empty() {
    let e = Edge::default();
    assert_eq!(e.ptr(), -1);
    assert_eq!(e.mov(), 0);
    assert_eq!(e.policy(), 0);
    assert_eq!(e.visits(), 0);
    assert_eq!(e.wins(), 0);
}

#[test]
fn set_stats_overwrites() {
    let mut e = Edge::default();
    e.set_stats(4, 3 * SCALE);
    assert_eq!(e.visits(), 4);
    assert_eq!(e.wins(), 3 * SCALE);
    assert_eq!(e.q(), 3 * SCALE / 4);
}

#[test]
fn update_with_children_caches_minimax() {
    let mut child = Edge::new(-1, 1, 0);
    let empty: Vec<Edge> = Vec::new();
    child.update(SCALE / 4, &empty);
    let children = vec![child];
    let mut e = Edge::new(0, 2, 0);
    e.update(SCALE, &children);
    // the cached estimate is one minus the best child estimate
    assert_eq!(e.minimax_value(), SCALE - SCALE / 4);
}

/// A fresh node is unexpanded: its action list is empty.
#[test]
fn new_node_is_unexpanded() {
    let n = Node::new(GameState::Ongoing, 42, -1, 0);
    assert!(n.is_not_expanded());
    assert!(!n.has_children());
    assert_eq!(n.actions().len(), 0);
    assert!(!n.is_terminal());
    let t = Node::new(GameState::Won(2), 7, -1, 0);
    assert!(t.is_terminal());
}

/// Expansion from a plain move list stores one edge per item with the
/// move copied and the prior clamped and quantized.
#[test]
fn expand_from_list_stores_quantized_priors() {
    let mut n = Node::new(GameState::Ongoing, 1, -1, 0);
    let list = vec![(7u16, 65536u64), (9u16, 32768u64), (4u16, 99999u64)];
    n.expand_from_list(&list);
    assert_eq!(n.actions().len(), 3);
    assert_eq!(n.actions()[0].mov(), 7);
    assert_eq!(n.actions()[0].policy(), 32767);
    assert_eq!(n.actions()[1].mov(), 9);
    assert_eq!(n.actions()[1].policy(), 16383);
    // an out-of-range prior is clamped to one before quantization
    assert_eq!(n.actions()[2].policy(), 32767);
    for e in n.actions().iter() {
        assert_eq!(e.ptr(), -1);
        assert_eq!(e.visits(), 0);
        assert_eq!(e.wins(), 0);
    }
}

/// Relabelling from a matching list rewrites only the priors; pointers
/// and statistics stay; a list of the wrong length changes nothing.
#[test]
fn relabel_from_list_updates_only_priors() {
    let mut n = Node::new(GameState::Ongoing, 1, -1, 0);
    n.expand_from_list(&vec![(1u16, 100u64), (2u16, 200u64)]);
    n.actions[0].set_ptr(5);
    n.actions[0].set_stats(3, 2 * SCALE);
    n.relabel_from_list(&vec![(1u16, 50000u64), (2u16, 60000u64)]);
    assert_eq!(n.actions()[0].ptr(), 5);
    assert_eq!(n.actions()[0].visits(), 3);
    assert_eq!(n.actions()[0].wins(), 2 * SCALE);
    assert_eq!(n.actions()[0].policy(), (50000u64 * 32767 / 65536) as i16);
    assert_eq!(n.actions()[1].policy(), (60000u64 * 32767 / 65536) as i16);
    let before = n.actions()[0].policy();
    n.relabel_from_list(&vec![(1u16, 0u64)]);
    assert_eq!(n.actions()[0].policy(), before);
}
