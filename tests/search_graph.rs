use monte_carlo::game::{MonteCarloGame, Winner};
use monte_carlo::line_four_7x6::{LineFourGame, LineFourIndex};
use monte_carlo::search::{forced_move, SearchGraph, UNEXPANDED};
use monte_carlo::tic_tac_toe::{TicTacToe, TicTacToeMove};

fn edge_to(g: &SearchGraph<TicTacToe>, h: usize, m: TicTacToeMove) -> usize {
    g.edges(h).unwrap().iter().position(|(_, mv)| *mv == m).unwrap()
}

fn follow(g: &mut SearchGraph<TicTacToe>, start: usize, cells: &[TicTacToeMove]) -> usize {
    let mut h = start;
    for m in cells {
        let i = edge_to(g, h, *m);
        let succ = g.edges(h).unwrap()[i].0;
        h = if succ == UNEXPANDED { g.expand(h, i).unwrap().0 } else { succ };
    }
    h
}

#[test]
fn root_lists_every_move_unexpanded() {
    let mut g: SearchGraph<TicTacToe> = SearchGraph::new();
    let root = g.create_root(TicTacToe::new()).unwrap();
    let node = g.node(root).unwrap();
    assert_eq!(g.edges(root).unwrap().len(), 9);
    assert!(node.predecessors.is_empty());
    assert_eq!(node.visited_amount, 0);
    assert!(!node.completely_computed);
    assert_eq!(g.unexpanded_moves(root), (0..9).collect::<Vec<_>>());
    assert_eq!(g.find(&TicTacToe::new()), Some(root));
    assert_eq!(g.create_root(TicTacToe::new()), Ok(root));
}

#[test]
fn expansion_links_both_ways() {
    let mut g: SearchGraph<TicTacToe> = SearchGraph::new();
    let root = g.create_root(TicTacToe::new()).unwrap();
    let (child, winner) = g.expand(root, 4).unwrap();
    assert_eq!(winner, None);
    let expected = TicTacToe::new().make_move(&TicTacToeMove::I5).unwrap().0;
    assert!(g.node(child).unwrap().game_state == expected);
    assert_eq!(g.node(child).unwrap().predecessors, vec![root]);
    assert_eq!(g.edges(root).unwrap()[4], (child, TicTacToeMove::I5));
    assert_eq!(g.unexpanded_moves(root), vec![0, 1, 2, 3, 5, 6, 7, 8]);
    assert_eq!(g.edges(child).unwrap().len(), 8);
}

#[test]
fn transpositions_share_one_node() {
    let mut g: SearchGraph<TicTacToe> = SearchGraph::new();
    let root = g.create_root(TicTacToe::new()).unwrap();
    let a = follow(&mut g, root, &[TicTacToeMove::I1, TicTacToeMove::I2, TicTacToeMove::I3]);
    let b = follow(&mut g, root, &[TicTacToeMove::I3, TicTacToeMove::I2, TicTacToeMove::I1]);
    assert_eq!(a, b);
    let preds = &g.node(a).unwrap().predecessors;
    assert_eq!(preds.len(), 2);
    for p in preds {
        assert!(g.edges(*p).unwrap().iter().any(|(s, _)| *s == a));
    }
}

#[test]
fn terminal_nodes_are_solved_and_propagate() {
    let mut g: SearchGraph<TicTacToe> = SearchGraph::new();
    // X: 1 2 _, O: 4 5 _: X to move; only TicTacToeMove::I3 wins at once.
    let mut state = TicTacToe::new();
    for m in [TicTacToeMove::I1, TicTacToeMove::I4, TicTacToeMove::I2, TicTacToeMove::I5] {
        state = state.make_move(&m).unwrap().0;
    }
    let root = g.create_root(state).unwrap();
    let i = edge_to(&g, root, TicTacToeMove::I3);
    let (leaf, winner) = g.expand(root, i).unwrap();
    assert_eq!(winner, Some(Winner::WIN));
    let leaf_node = g.node(leaf).unwrap();
    assert!(g.edges(leaf).unwrap().is_empty());
    assert!(leaf_node.completely_computed);
    assert!(g.refresh_solved(leaf));
    assert!(!g.refresh_solved(root));
    assert!(!g.node(root).unwrap().completely_computed);
}

#[test]
fn visits_count_up_and_reset_forgets() {
    let mut g: SearchGraph<TicTacToe> = SearchGraph::new();
    let root = g.create_root(TicTacToe::new()).unwrap();
    for _ in 0..5 {
        g.record_visit(root);
    }
    assert_eq!(g.node(root).unwrap().visited_amount, 5);
    g.reset();
    assert!(g.node(root).is_none());
    assert_eq!(g.find(&TicTacToe::new()), None);
}

#[test]
fn solved_subtree_of_a_small_line_four_endgame() {
    let mut g: SearchGraph<LineFourGame> = SearchGraph::new();
    let mut state = LineFourGame::new();
    for c in [0u32, 1, 0, 1, 0, 1] {
        state = state.make_move(&LineFourIndex::try_from(c).unwrap()).unwrap().0;
    }
    let root = g.create_root(state).unwrap();
    let n = g.edges(root).unwrap().len();
    for i in 0..n {
        let (child, winner) = g.expand(root, i).unwrap();
        if i == 0 {
            assert_eq!(winner, Some(Winner::WIN));
            assert!(g.node(child).unwrap().completely_computed);
        }
    }
    assert!(g.unexpanded_moves(root).is_empty());
    assert!(!g.refresh_solved(root));
}

#[test]
fn single_legal_move_is_forced() {
    let mut state = TicTacToe::new();
    for c in [0u32, 1, 2, 4, 3, 5, 7, 6] {
        state = state.make_move(&TicTacToeMove::try_from(c).unwrap()).unwrap().0;
    }
    assert_eq!(state.moves(), vec![TicTacToeMove::I9]);
    assert_eq!(forced_move(&state), Some(TicTacToeMove::I9));
}

#[test]
fn immediate_win_is_forced() {
    let mut state = TicTacToe::new();
    for m in [TicTacToeMove::I1, TicTacToeMove::I4, TicTacToeMove::I2, TicTacToeMove::I5] {
        state = state.make_move(&m).unwrap().0;
    }
    assert_eq!(forced_move(&state), Some(TicTacToeMove::I3));
    assert_eq!(forced_move(&TicTacToe::new()), None);
}
