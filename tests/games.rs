use monte_carlo::game::{execute_move, CheckWinMonteCarloGame, GameState, MonteCarloGame, TwoPlayer, Winner};
use monte_carlo::line_four_7x6::{LineFourGame, LineFourIndex};
use monte_carlo::line_four_8x8::{LineFour8x8, LineFour8x8Index};
use monte_carlo::tic_tac_toe::{TicTacToe, TicTacToeMove};

fn ttt_play(cells: &[u32]) -> (TicTacToe, Option<Winner>) {
    let mut g = TicTacToe::new();
    let mut last = None;
    for c in cells {
        let (n, w) = g.make_move(&TicTacToeMove::try_from(*c).unwrap()).unwrap();
        g = n;
        last = w;
    }
    (g, last)
}

fn c4_play(cols: &[u32]) -> (LineFourGame, Option<Winner>) {
    let mut g = LineFourGame::new();
    let mut last = None;
    for c in cols {
        let (n, w) = g.make_move(&LineFourIndex::try_from(*c).unwrap()).unwrap();
        g = n;
        last = w;
    }
    (g, last)
}

#[test]
fn two_player_alternates() {
    assert_eq!(TwoPlayer::P1.next(), TwoPlayer::P2);
    assert_eq!(TwoPlayer::P2.next(), TwoPlayer::P1);
}

#[test]
fn tic_tac_toe_start() {
    let g = TicTacToe::new();
    assert_eq!(g.player(), TwoPlayer::P1);
    assert_eq!(g.moves().len(), 9);
    assert_eq!(g.moves()[0], TicTacToeMove::I1);
    assert_eq!(g.moves()[8], TicTacToeMove::I9);
    assert_eq!(g.win_state(), None);
    assert!(TicTacToeMove::try_from(9).is_err());
}

#[test]
fn tic_tac_toe_row_wins() {
    let (g, w) = ttt_play(&[0, 3, 1, 4, 2]);
    assert_eq!(w, Some(Winner::WIN));
    assert_eq!(g.win_state(), Some(Winner::WIN));
    assert_eq!(g.player(), TwoPlayer::P1);
    assert!(g.moves().is_empty());
    assert!(g.make_move(&TicTacToeMove::I9).is_err());
}

#[test]
fn tic_tac_toe_full_board_ties() {
    let (g, w) = ttt_play(&[0, 1, 2, 4, 3, 5, 7, 6, 8]);
    assert_eq!(w, Some(Winner::TIE));
    assert_eq!(g.win_state(), Some(Winner::TIE));
    assert!(g.moves().is_empty());
}

#[test]
fn tic_tac_toe_taken_cell_fails() {
    let (g, _) = ttt_play(&[4]);
    assert_eq!(g.player(), TwoPlayer::P2);
    assert!(g.make_move(&TicTacToeMove::I5).is_err());
    assert_eq!(g.moves().len(), 8);
    assert!(!g.moves().contains(&TicTacToeMove::I5));
}

#[test]
fn tic_tac_toe_moves_are_deterministic() {
    let (a, _) = ttt_play(&[0, 4]);
    let (b, _) = ttt_play(&[0, 4]);
    assert!(a == b);
    assert_eq!(a.moves(), b.moves());
    let ma = a.make_move(&TicTacToeMove::I3).unwrap();
    let mb = b.make_move(&TicTacToeMove::I3).unwrap();
    assert!(ma.0 == mb.0);
    assert_eq!(ma.1, mb.1);
}

#[test]
fn line_four_column_win_ends_the_game() {
    let (g, w) = c4_play(&[0, 1, 0, 1, 0, 1]);
    assert_eq!(w, None);
    assert_eq!(g.win_state(), None);
    let mut g = g;
    assert_eq!(execute_move(&mut g, &LineFourIndex::I0), Ok(GameState::Finished));
    assert_eq!(g.win_state(), Some(Winner::WIN));
    assert_eq!(g.player(), TwoPlayer::P1);
    assert!(g.moves().is_empty());
    assert!(g.make_move(&LineFourIndex::I3).is_err());
}

#[test]
fn line_four_full_column_is_refused() {
    let (g, w) = c4_play(&[0, 0, 0, 0, 0, 0]);
    assert_eq!(w, None);
    assert!(g.make_move(&LineFourIndex::I0).is_err());
    let moves = g.moves();
    assert_eq!(moves.len(), 6);
    assert_eq!(moves[0], LineFourIndex::I1);
    let mut copy = g;
    assert!(copy.set_at_index(&LineFourIndex::I0).is_err());
    assert!(copy == g);
}

#[test]
fn line_four_start_lists_every_column() {
    let g = LineFourGame::new();
    let moves = g.moves();
    assert_eq!(moves.len(), 7);
    assert_eq!(moves[3], LineFourIndex::I3);
    assert!(LineFourIndex::try_from(7).is_err());
}

#[test]
fn line_four_win_detection_on_boards() {
    // cells (c, r) at bit c * 6 + r
    assert!(LineFourGame::has_won_in(1 | 1 << 6 | 1 << 12 | 1 << 18));
    assert!(LineFourGame::has_won_in(1 | 1 << 7 | 1 << 14 | 1 << 21));
    assert!(LineFourGame::has_won_in(1 << 3 | 1 << 8 | 1 << 13 | 1 << 18));
    assert!(LineFourGame::has_won_in(0b1111 << 2));
    assert!(!LineFourGame::has_won_in(0b1111 << 4));
    assert!(!LineFourGame::has_won_in(0b111 | 1 << 6));
    assert!(!LineFourGame::has_won_in(0));
}

#[test]
fn line_four_8x8_win_detection_on_boards() {
    // cells (c, r) at bit r * 8 + c
    assert!(LineFour8x8::won(0b1111));
    assert!(!LineFour8x8::won(0b1111 << 5));
    assert!(LineFour8x8::won(1 | 1 << 8 | 1 << 16 | 1 << 24));
    assert!(LineFour8x8::won(1 | 1 << 9 | 1 << 18 | 1 << 27));
    assert!(LineFour8x8::won(1 << 3 | 1 << 10 | 1 << 17 | 1 << 24));
    assert!(LineFour8x8::won(1 << 7 | 1 << 14 | 1 << 21 | 1 << 28));
    assert!(!LineFour8x8::won(1 << 1 | 1 << 8 | 1 << 15 | 1 << 22));
}

#[test]
fn line_four_8x8_column_win() {
    let mut g = LineFour8x8::new();
    let mut last = None;
    for c in [3u64, 4, 3, 4, 3, 4, 3] {
        let (n, w) = g.make_move(&LineFour8x8Index::try_from(c).unwrap()).unwrap();
        g = n;
        last = w;
    }
    assert_eq!(last, Some(Winner::WIN));
    assert_eq!(g.win_state(), Some(Winner::WIN));
    assert!(g.moves().is_empty());
    assert_eq!(LineFour8x8::new().moves().len(), 8);
}

#[test]
fn line_four_8x8_moves_hand_out_columns() {
    let g = LineFour8x8::new();
    let mut it = g.column_moves();
    assert_eq!(it.size_hint(), (8, Some(8)));
    assert_eq!(it.next(), Some(LineFour8x8Index::I0));
    assert_eq!(it.next(), Some(LineFour8x8Index::I1));
    assert_eq!(it.size_hint(), (6, Some(6)));
}
