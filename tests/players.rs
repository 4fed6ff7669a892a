use monte_carlo::ai_infra::{GamePlayer, GameStrategy, GameStrategyPlayer};
use monte_carlo::driver::Tally;
use monte_carlo::dumm_ai::{safe_moves, winning_move, DummAi};
use monte_carlo::game::{execute_move, GameState, GameWithMoves, MonteCarloGame, TwoPlayer, Winner};
use monte_carlo::line_four_7x6::{LineFourGame, LineFourIndex};
use monte_carlo::tic_tac_toe::{TicTacToe, TicTacToeMove};

fn ttt(cells: &[TicTacToeMove]) -> TicTacToe {
    let mut g = TicTacToe::new();
    for m in cells {
        g = g.make_move(m).unwrap().0;
    }
    g
}

#[test]
fn baseline_takes_the_winning_move() {
    let g = ttt(&[TicTacToeMove::I1, TicTacToeMove::I4, TicTacToeMove::I2, TicTacToeMove::I5]);
    assert_eq!(winning_move(&g), Some(TicTacToeMove::I3));
    for r in [0usize, 1, 7, 1000] {
        assert_eq!(DummAi::choose_move(&g, r), Some(TicTacToeMove::I3));
    }
}

#[test]
fn baseline_blocks_a_threat() {
    // X at TicTacToeMove::I1, TicTacToeMove::I2 threatens TicTacToeMove::I3; O to move with O at TicTacToeMove::I5.
    let g = ttt(&[TicTacToeMove::I1, TicTacToeMove::I5, TicTacToeMove::I2]);
    assert_eq!(winning_move(&g), None);
    assert_eq!(safe_moves(&g), vec![TicTacToeMove::I3]);
    for r in [0usize, 3, 99] {
        assert_eq!(DummAi::choose_move(&g, r), Some(TicTacToeMove::I3));
    }
}

#[test]
fn baseline_picks_by_the_random_number_among_safe_moves() {
    let g = TicTacToe::new();
    let safe = safe_moves(&g);
    assert_eq!(safe.len(), 9);
    assert_eq!(DummAi::choose_move(&g, 10), Some(safe[1]));
}

#[test]
fn execute_move_plays_in_place() {
    let mut g = LineFourGame::new();
    for c in [0u32, 1, 0, 1, 0, 1] {
        assert_eq!(execute_move(&mut g, &LineFourIndex::try_from(c).unwrap()), Ok(GameState::Continue));
    }
    let before = g;
    assert_eq!(GameWithMoves::execute_move(&mut g, &LineFourIndex::I0), Ok(GameState::Finished));
    assert!(g != before);
    let after = g;
    assert_eq!(execute_move(&mut g, &LineFourIndex::I2), Err(()));
    assert!(g == after);
}

struct FirstMove;

impl GameStrategy<TicTacToe> for FirstMove {
    type Carry = u32;
    type Config = ();

    fn new(_config: ()) -> Self {
        FirstMove
    }

    fn make_move(&self, game: &TicTacToe, carry: Option<(TicTacToeMove, u32)>) -> (TicTacToeMove, u32) {
        let turns = carry.map(|(_, n)| n + 1).unwrap_or(0);
        (game.moves()[0], turns)
    }
}

#[test]
fn strategy_player_keeps_its_carry() {
    let mut player = GameStrategyPlayer::new(FirstMove::new(()));
    assert!(!player.has_carry());
    let g = TicTacToe::new();
    let m = player.make_move(&g, None);
    assert_eq!(m, TicTacToeMove::I1);
    assert!(player.has_carry());
    let g = g.make_move(&m).unwrap().0;
    let (g, w) = g.make_move(&TicTacToeMove::I5).unwrap();
    assert_eq!(w, None::<Winner>);
    assert_eq!(player.make_move(&g, Some(TicTacToeMove::I5)), TicTacToeMove::I2);
}

#[test]
fn tally_follows_players_across_seat_swaps() {
    let mut t = Tally::new();
    t.record(0, Winner::WIN, TwoPlayer::P1);
    t.record(1, Winner::WIN, TwoPlayer::P1);
    t.record(2, Winner::WIN, TwoPlayer::P2);
    t.record(3, Winner::WIN, TwoPlayer::P2);
    t.record(4, Winner::TIE, TwoPlayer::P1);
    assert_eq!((t.first_wins, t.second_wins, t.ties), (2, 2, 1));
    t.record(5, Winner::WIN, TwoPlayer::P2);
    assert_eq!(t.first_wins, 3);
}
